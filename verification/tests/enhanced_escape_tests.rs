use rb_tokenizer::scanners::block_scanner::BlockScanner;
use rb_tokenizer::{Tokenizer, TokenizerConfig};

fn get_js_style_tokenizer() -> Tokenizer {
    let config = TokenizerConfig {
        tokenize_whitespace: false,
        continue_on_error: true,
        error_tolerance_limit: 5,
        track_token_positions: true,
    };
    let mut tokenizer = Tokenizer::with_config(config);

    // Add a double-quoted string scanner with JS-style escapes
    let mut double_string_scanner =
        BlockScanner::new("\"", "\"", "String", Some("DoubleQuote"), false, false, true);

    // Add simple escape character
    double_string_scanner.add_simple_escape('\\');

    // Add Unicode escape patterns
    double_string_scanner.add_pattern_escape(r"\\u[0-9a-fA-F]{4}").unwrap();
    double_string_scanner.add_pattern_escape(r"\\x[0-9a-fA-F]{2}").unwrap();

    // Setup common escape mappings
    double_string_scanner.set_transform_escapes(true);
    double_string_scanner.add_escape_mapping("n", '\n');
    double_string_scanner.add_escape_mapping("t", '\t');
    double_string_scanner.add_escape_mapping("r", '\r');
    double_string_scanner.add_escape_mapping("\\", '\\');
    double_string_scanner.add_escape_mapping("\"", '\"');
    double_string_scanner.add_escape_mapping("'", '\'');
    double_string_scanner.add_escape_mapping("0", '\0');

    tokenizer.add_scanner(Box::new(double_string_scanner));

    // Add a single-quoted string scanner with similar escapes
    let mut single_string_scanner =
        BlockScanner::new("'", "'", "String", Some("SingleQuote"), false, false, true);

    single_string_scanner.add_simple_escape('\\');
    single_string_scanner.add_pattern_escape(r"\\u[0-9a-fA-F]{4}").unwrap();
    single_string_scanner.set_transform_escapes(true);
    single_string_scanner.add_escape_mapping("n", '\n');
    single_string_scanner.add_escape_mapping("t", '\t');
    single_string_scanner.add_escape_mapping("r", '\r');
    single_string_scanner.add_escape_mapping("\\", '\\');
    single_string_scanner.add_escape_mapping("\"", '\"');
    single_string_scanner.add_escape_mapping("'", '\'');

    tokenizer.add_scanner(Box::new(single_string_scanner));

    // Add a template literal scanner with JS-style escapes
    // and template expression placeholders
    let mut template_scanner =
        BlockScanner::new("`", "`", "String", Some("TemplateLiteral"), false, false, true);

    template_scanner.add_simple_escape('\\');
    template_scanner.add_balanced_escape("${", "}", true);
    template_scanner.set_transform_escapes(true);
    template_scanner.add_escape_mapping("n", '\n');
    template_scanner.add_escape_mapping("t", '\t');
    template_scanner.add_escape_mapping("r", '\r');
    template_scanner.add_escape_mapping("`", '`');
    template_scanner.add_escape_mapping("\\", '\\');

    tokenizer.add_scanner(Box::new(template_scanner));

    // Regular tokens
    tokenizer.add_symbol_scanner("(", "Braces", Some("OpenParen"));
    tokenizer.add_symbol_scanner(")", "Braces", Some("CloseParen"));
    tokenizer.add_symbol_scanner("{", "Braces", Some("OpenBrace"));
    tokenizer.add_symbol_scanner("}", "Braces", Some("CloseBrace"));
    tokenizer.add_symbol_scanner("[", "Bracket", Some("OpenBracket"));
    tokenizer.add_symbol_scanner("]", "Bracket", Some("CloseBracket"));
    tokenizer.add_symbol_scanner(";", "Semicolon", None);
    tokenizer.add_symbol_scanner(":", "Colon", None);
    tokenizer.add_symbol_scanner(",", "Comma", None);

    // Arithmetic Operators
    tokenizer.add_symbol_scanner("+", "Operator", Some("Plus"));
    tokenizer.add_symbol_scanner("-", "Operator", Some("Minus"));
    tokenizer.add_symbol_scanner("*", "Operator", Some("Multiply"));
    tokenizer.add_symbol_scanner("/", "Operator", Some("Divide"));

    // Regular expressions
    tokenizer.add_regex_scanner(r"^(true|false|null|undefined)\b", "Literal", None);
    tokenizer.add_regex_scanner(r"^[a-zA-Z_$][a-zA-Z0-9_$]*", "Identifier", None);
    tokenizer.add_regex_scanner(r"^-?\d+(\.\d+)?([eE][-+]?\d+)?", "Number", None);

    tokenizer
}

fn get_html_style_tokenizer() -> Tokenizer {
    let config = TokenizerConfig {
        tokenize_whitespace: false,
        continue_on_error: true,
        error_tolerance_limit: 5,
        track_token_positions: true,
    };
    let mut tokenizer = Tokenizer::with_config(config);

    // HTML tag scanner
    let tag_scanner = BlockScanner::new("<", ">", "Tag", None, false, false, true);
    tokenizer.add_scanner(Box::new(tag_scanner));

    // HTML content with entities
    let mut entity_scanner = BlockScanner::new("&", ";", "Entity", None, false, false, true);
    entity_scanner.set_transform_escapes(true);

    // Add common HTML entity mappings
    entity_scanner.add_escape_mapping("amp", '&');
    entity_scanner.add_escape_mapping("lt", '<');
    entity_scanner.add_escape_mapping("gt", '>');
    entity_scanner.add_escape_mapping("quot", '"');
    entity_scanner.add_escape_mapping("apos", '\'');
    entity_scanner.add_escape_mapping("nbsp", '\u{00A0}');

    tokenizer.add_scanner(Box::new(entity_scanner));

    // Regular HTML tokens
    tokenizer.add_regex_scanner(r"^[a-zA-Z_][a-zA-Z0-9_-]*", "Identifier", None);
    tokenizer.add_regex_scanner(r"^=", "Equals", None);

    tokenizer
}

fn get_ruby_style_tokenizer() -> Tokenizer {
    let config = TokenizerConfig {
        tokenize_whitespace: false,
        continue_on_error: true,
        error_tolerance_limit: 5,
        track_token_positions: true,
    };
    let mut tokenizer = Tokenizer::with_config(config);

    // Ruby double-quoted string with interpolation
    let mut dq_string_scanner =
        BlockScanner::new("\"", "\"", "String", Some("DoubleQuoted"), false, false, true);

    dq_string_scanner.add_simple_escape('\\');
    dq_string_scanner.add_balanced_escape("#{", "}", true); // Ruby interpolation
    dq_string_scanner.set_transform_escapes(true);
    dq_string_scanner.add_escape_mapping("n", '\n');
    dq_string_scanner.add_escape_mapping("t", '\t');
    dq_string_scanner.add_escape_mapping("\"", '"');
    dq_string_scanner.add_escape_mapping("\\", '\\');

    tokenizer.add_scanner(Box::new(dq_string_scanner));

    // Ruby single-quoted string (no interpolation)
    let mut sq_string_scanner =
        BlockScanner::new("'", "'", "String", Some("SingleQuoted"), false, false, true);

    sq_string_scanner.add_simple_escape('\\');
    sq_string_scanner.set_transform_escapes(true);
    sq_string_scanner.add_escape_mapping("'", '\'');
    sq_string_scanner.add_escape_mapping("\\", '\\');

    tokenizer.add_scanner(Box::new(sq_string_scanner));

    // Regular tokens
    tokenizer.add_regex_scanner(r"^[a-zA-Z_][a-zA-Z0-9_]*", "Identifier", None);
    tokenizer.add_symbol_scanner(";", "Semicolon", None);

    tokenizer
}

#[test]
fn test_js_string_escapes() {
    let mut tokenizer = get_js_style_tokenizer();

    // Test double-quoted strings with escapes
    let input = r#"const message = "Hello\nWorld\t\"Escaped\"\\path\\to\\file";"#;
    let result = tokenizer.tokenize(input).expect("Tokenization failed");

    // Find the string token
    let string_token = result.iter().find(|t| t.token_type == "String").unwrap();

    // Verify escape sequence transformation
    assert!(string_token.value.contains('\n'));
    assert!(string_token.value.contains('\t'));
    assert!(string_token.value.contains("\"Escaped\""));
    assert!(string_token.value.contains("\\path\\to\\file"));

    // Test single-quoted strings
    let input = r#"const message = 'Single\'s quote\nand newline';"#;
    let result = tokenizer.tokenize(input).expect("Tokenization failed");
    let string_token = result.iter().find(|t| t.token_type == "String").unwrap();

    assert!(string_token.value.contains("Single's quote"));
    assert!(string_token.value.contains('\n'));
}

#[test]
fn test_js_template_literals() {
    let mut tokenizer = get_js_style_tokenizer();

    // Test template literals with expressions
    let input = r#"const greeting = `Hello, ${name}! Today is ${new Date().toDateString()}.`;"#;
    let result = tokenizer.tokenize(input).expect("Tokenization failed");

    // Find the template literal token
    let template_token = result
        .iter()
        .find(|t| t.token_sub_type == Some("TemplateLiteral".to_string()))
        .unwrap();

    // Verify template expressions are preserved
    assert!(template_token.value.contains("${name}"));
    assert!(template_token.value.contains("${new Date().toDateString()}"));

    // Test nested expressions in template literals
    let input = r#"`Nested ${`inner ${value}` + more}`"#;
    let result = tokenizer.tokenize(input).expect("Tokenization failed");
    let template_token = result
        .iter()
        .find(|t| t.token_sub_type == Some("TemplateLiteral".to_string()))
        .unwrap();

    // Should correctly handle nesting
    assert!(template_token.value.contains("`inner ${value}`"));
}

#[test]
fn test_html_entity_escapes() {
    let mut tokenizer = get_html_style_tokenizer();

    // Test HTML with entities
    let input = r#"<p>This is a paragraph with &lt;tags&gt; and an &amp; symbol.</p>"#;
    let result = tokenizer.tokenize(input).expect("Tokenization failed");

    // Find all entity tokens
    let entity_tokens: Vec<_> = result.iter().filter(|t| t.token_type == "Entity").collect();

    // Should have 3 entities: &lt;, &gt;, and &amp;
    assert_eq!(entity_tokens.len(), 3);

    // The entities should be captured as full tokens with the delimiters
    let lt_entity = entity_tokens.iter().find(|t| t.value.contains("&lt;")).unwrap();
    let gt_entity = entity_tokens.iter().find(|t| t.value.contains("&gt;")).unwrap();
    let amp_entity = entity_tokens.iter().find(|t| t.value.contains("&amp;")).unwrap();

    assert_eq!(lt_entity.value, "&lt;");
    assert_eq!(gt_entity.value, "&gt;");
    assert_eq!(amp_entity.value, "&amp;");
}

#[test]
fn test_ruby_string_interpolation() {
    let mut tokenizer = get_ruby_style_tokenizer();

    // Test Ruby-style string with interpolation
    let input = r#"message = "Hello #{name}! The time is #{Time.now}""#;
    let result = tokenizer.tokenize(input).expect("Tokenization failed");

    // Find the string token
    let string_token = result.iter().find(|t| t.token_type == "String").unwrap();

    // Verify interpolation is preserved
    assert!(string_token.value.contains("#{name}"));
    assert!(string_token.value.contains("#{Time.now}"));

    // Test nested interpolation
    let input = r#"msg = "Value: #{x + #{nested}!} end""#;
    let result = tokenizer.tokenize(input).expect("Tokenization failed");
    let string_token = result.iter().find(|t| t.token_type == "String").unwrap();

    // Verify nested interpolation is handled
    assert!(string_token.value.contains("#{x + #{nested}!}"));
}

use blaze::lexer::{LexError, Lexer};
use blaze::tokens::{Token, TokenType};

fn lex(source: &str) -> Result<Vec<Token>, LexError> {
    Lexer::new(source.to_string(), "Buffer".to_string()).analyze()
}

fn lex_ok(source: &str) -> Vec<Token> {
    lex(source).unwrap()
}

fn check(tok: &Token, tt: TokenType, position: u64, line: u64, value: &str) {
    assert_eq!(tok.token_type, tt);
    assert_eq!(tok.position, position);
    assert_eq!(tok.line, line);
    assert_eq!(tok.value, value);
}

#[test]
fn boolean_then_semicolon() {
    let toks = lex_ok("true;");
    assert_eq!(toks.len(), 2);
    check(&toks[0], TokenType::True, 0, 1, "true");
    check(&toks[1], TokenType::ExpressionEnd, 4, 1, ";");
}

#[test]
fn variable_assignment_statement() {
    let toks = lex_ok("let x = 5;");
    assert_eq!(toks.len(), 7);
    check(&toks[0], TokenType::VariableAssign, 0, 1, "let ");
    check(&toks[1], TokenType::Alphanumeric, 4, 1, "x");
    check(&toks[2], TokenType::Space, 5, 1, " ");
    check(&toks[3], TokenType::Assign, 6, 1, "=");
    check(&toks[4], TokenType::Space, 7, 1, " ");
    check(&toks[5], TokenType::Number, 8, 1, "5");
    check(&toks[6], TokenType::ExpressionEnd, 9, 1, ";");
}

#[test]
fn round_trip_rebuilds_buffer() {
    let source = "function add(a, b) {\n\treturn a + b;\n}\nif x >= 2 { get y; }\n";
    let toks = lex_ok(source);
    let rebuilt: String = toks.iter().map(|t| t.value.as_str()).collect::<Vec<_>>().concat();
    assert_eq!(rebuilt, source);
}

#[test]
fn keyword_with_trailing_word_char_is_identifier() {
    for (source, text) in [
        ("lethal", "lethal"),
        ("vars", "vars"),
        ("truest", "truest"),
        ("iffy", "iffy"),
        ("newt", "newt"),
        ("nullable", "nullable"),
        ("elsewhere", "elsewhere"),
        ("importer", "importer"),
        ("functions", "functions"),
    ] {
        let toks = lex_ok(source);
        assert_eq!(toks.len(), 1, "{}", source);
        check(&toks[0], TokenType::Alphanumeric, 0, 1, text);
    }
}

#[test]
fn keyword_at_end_of_buffer_is_identifier() {
    // the keyword patterns demand a following non-word character
    let toks = lex_ok("true");
    assert_eq!(toks.len(), 1);
    check(&toks[0], TokenType::Alphanumeric, 0, 1, "true");
}

#[test]
fn keyword_boundary_not_space_is_left_for_next_token() {
    let toks = lex_ok("let;");
    assert_eq!(toks.len(), 2);
    check(&toks[0], TokenType::VariableAssign, 0, 1, "let");
    check(&toks[1], TokenType::ExpressionEnd, 3, 1, ";");
}

#[test]
fn query_keywords() {
    let toks = lex_ok("get x;");
    assert_eq!(toks.len(), 3);
    check(&toks[0], TokenType::Query, 0, 1, "get ");
    check(&toks[1], TokenType::Alphanumeric, 4, 1, "x");
    check(&toks[2], TokenType::ExpressionEnd, 5, 1, ";");
    let toks = lex_ok("new del set");
    assert_eq!(toks[0].token_type, TokenType::Query);
    assert_eq!(toks[0].value, "new ");
    assert_eq!(toks[1].token_type, TokenType::Query);
    assert_eq!(toks[1].value, "del ");
    // "set" at the end of the buffer has no boundary character
    assert_eq!(toks[2].token_type, TokenType::Alphanumeric);
    assert_eq!(toks[2].value, "set");
}

#[test]
fn line_numbers_advance_at_newlines() {
    let toks = lex_ok("a\nb\nc");
    let lines: Vec<u64> = toks.iter().map(|t| t.line).collect();
    assert_eq!(lines, vec![1, 1, 2, 2, 3]);
    let values: Vec<&str> = toks.iter().map(|t| t.value.as_str()).collect();
    assert_eq!(values, vec!["a", "\n", "b", "\n", "c"]);
}

#[test]
fn lines_monotone_and_spanning() {
    let toks = lex_ok("x\n\ny;\n");
    let mut last = 1;
    for t in &toks {
        assert!(t.line >= last);
        last = t.line;
    }
    assert_eq!(toks[0].line, 1);
    assert_eq!(toks.last().unwrap().line, 3);
}

#[test]
fn unrecognized_character_at_start() {
    match lex("\0") {
        Err(LexError::UnrecognizedToken { position, line, column, character, buffer_label }) => {
            assert_eq!(position, 0);
            assert_eq!(line, 1);
            assert_eq!(column, 1);
            assert_eq!(character, '\0');
            assert_eq!(buffer_label, "Buffer");
        },
        Ok(_) => panic!("expected an error"),
    }
}

#[test]
fn unrecognized_character_position_and_column() {
    match lex("ab\0") {
        Err(LexError::UnrecognizedToken { position, line, column, character, .. }) => {
            assert_eq!(position, 2);
            assert_eq!(line, 1);
            assert_eq!(column, 3);
            assert_eq!(character, '\0');
        },
        Ok(_) => panic!("expected an error"),
    }
}

#[test]
fn unrecognized_character_after_newline() {
    match lex("a\n\0") {
        Err(LexError::UnrecognizedToken { position, line, column, character, .. }) => {
            assert_eq!(position, 2);
            assert_eq!(line, 2);
            assert_eq!(column, 1);
            assert_eq!(character, '\0');
        },
        Ok(_) => panic!("expected an error"),
    }
}

#[test]
fn bang_alone_is_unrecognized() {
    // '!' is declared only as the head of "!=": alone it matches no category
    match lex("!") {
        Err(LexError::UnrecognizedToken { position, character, .. }) => {
            assert_eq!(position, 0);
            assert_eq!(character, '!');
        },
        Ok(_) => panic!("expected an error"),
    }
}

#[test]
fn two_char_operators_win_over_their_prefixes() {
    let toks = lex_ok("==");
    assert_eq!(toks.len(), 1);
    check(&toks[0], TokenType::EqualSign, 0, 1, "==");
    let toks = lex_ok(">=");
    assert_eq!(toks.len(), 1);
    check(&toks[0], TokenType::GreaterOrEqual, 0, 1, ">=");
    let toks = lex_ok("<=");
    assert_eq!(toks.len(), 1);
    check(&toks[0], TokenType::LessOrEqual, 0, 1, "<=");
    let toks = lex_ok("!=");
    assert_eq!(toks.len(), 1);
    check(&toks[0], TokenType::NotEqualSign, 0, 1, "!=");
    let toks = lex_ok("=");
    assert_eq!(toks.len(), 1);
    check(&toks[0], TokenType::Assign, 0, 1, "=");
}

#[test]
fn operators_and_brackets() {
    let toks = lex_ok("+-*/(){}.,:<>\t\r");
    let expected = [
        TokenType::Addition,
        TokenType::Subtraction,
        TokenType::Multiplication,
        TokenType::Division,
        TokenType::LPar,
        TokenType::RPar,
        TokenType::LBracket,
        TokenType::RBracket,
        TokenType::Dot,
        TokenType::Comma,
        TokenType::Colon,
        TokenType::Less,
        TokenType::Greater,
        TokenType::Indent,
        TokenType::Carriage,
    ];
    assert_eq!(toks.len(), expected.len());
    for (tok, tt) in toks.iter().zip(expected.iter()) {
        assert_eq!(tok.token_type, *tt);
    }
}

#[test]
fn quoted_text() {
    let toks = lex_ok("\"hi\"");
    assert_eq!(toks.len(), 1);
    check(&toks[0], TokenType::CharArray, 0, 1, "\"hi\"");

    let toks = lex_ok("\"\"");
    assert_eq!(toks.len(), 1);
    check(&toks[0], TokenType::CharArray, 0, 1, "\"\"");

    // an escaped quote does not close the text
    let toks = lex_ok("\"a\\\"b\";");
    assert_eq!(toks.len(), 2);
    check(&toks[0], TokenType::CharArray, 0, 1, "\"a\\\"b\"");
    check(&toks[1], TokenType::ExpressionEnd, 6, 1, ";");

    // an unterminated quote matches nothing and fails at the quote
    match lex("\"abc") {
        Err(LexError::UnrecognizedToken { position, character, .. }) => {
            assert_eq!(position, 0);
            assert_eq!(character, '"');
        },
        Ok(_) => panic!("expected an error"),
    }
}

#[test]
fn numbers() {
    let toks = lex_ok("3.14");
    assert_eq!(toks.len(), 1);
    check(&toks[0], TokenType::Number, 0, 1, "3.14");

    // a dot with no digit after it is not part of the number
    let toks = lex_ok("3.");
    assert_eq!(toks.len(), 2);
    check(&toks[0], TokenType::Number, 0, 1, "3");
    check(&toks[1], TokenType::Dot, 1, 1, ".");

    // a dot with no digit before it is not part of a number either
    let toks = lex_ok(".5");
    assert_eq!(toks.len(), 2);
    check(&toks[0], TokenType::Dot, 0, 1, ".");
    check(&toks[1], TokenType::Number, 1, 1, "5");
}

#[test]
fn null_and_booleans_in_context() {
    let toks = lex_ok("x = null;");
    assert_eq!(toks[4].token_type, TokenType::Null);
    assert_eq!(toks[4].value, "null");
    let toks = lex_ok("false true ");
    assert_eq!(toks[0].token_type, TokenType::False);
    assert_eq!(toks[0].value, "false ");
    assert_eq!(toks[1].token_type, TokenType::True);
    assert_eq!(toks[1].value, "true ");
}

#[test]
fn conditionals_and_import() {
    let toks = lex_ok("import lib;\nif a > 1 { b; } else { c; }");
    assert_eq!(toks[0].token_type, TokenType::ImportKeyword);
    assert_eq!(toks[0].value, "import ");
    let if_tok = toks.iter().find(|t| t.token_type == TokenType::If).unwrap();
    assert_eq!(if_tok.value, "if ");
    assert_eq!(if_tok.line, 2);
    let else_tok = toks.iter().find(|t| t.token_type == TokenType::Else).unwrap();
    assert_eq!(else_tok.value, "else ");
}

#[test]
fn foreign_character_fails_outside_quotes() {
    // '#' stands in no pattern's alphabet
    match lex("x # y") {
        Err(LexError::UnrecognizedToken { position, character, .. }) => {
            assert_eq!(position, 2);
            assert_eq!(character, '#');
        },
        Ok(_) => panic!("expected an error"),
    }
}

#[test]
fn quoted_text_hides_foreign_characters() {
    let toks = lex_ok("\"#\0\"");
    assert_eq!(toks.len(), 1);
    check(&toks[0], TokenType::CharArray, 0, 1, "\"#\0\"");
}

#[test]
fn newline_inside_quoted_text_does_not_advance_lines() {
    // the single non-backslash character before the closing quote may be a
    // newline; the line counter moves only on newline tokens
    let toks = lex_ok("\"\n\";");
    assert_eq!(toks.len(), 2);
    check(&toks[0], TokenType::CharArray, 0, 1, "\"\n\"");
    check(&toks[1], TokenType::ExpressionEnd, 3, 1, ";");
}

#[test]
fn empty_buffer_gives_no_tokens() {
    let toks = lex_ok("");
    assert_eq!(toks.len(), 0);
}

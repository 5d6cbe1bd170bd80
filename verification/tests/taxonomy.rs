use blaze::tokens::{
    binary_operator_tokens, formula_tokens, match_order, whitespace_tokens, TokenType,
};

#[test]
fn patterns_are_the_declared_ones() {
    assert_eq!(TokenType::VariableAssign.regex_str(), r"(?:let|var)[^\w\d]");
    assert_eq!(TokenType::ImportKeyword.regex_str(), r"import[^\w\d]");
    assert_eq!(TokenType::FunctionAssign.regex_str(), r"function[^\w\d]");
    assert_eq!(TokenType::Query.regex_str(), r"(?:new|get|set|del)[^\w\d]");
    assert_eq!(TokenType::True.regex_str(), r"true[^\w\d]");
    assert_eq!(TokenType::False.regex_str(), r"false[^\w\d]");
    assert_eq!(TokenType::Null.regex_str(), r"null[^\w\d]");
    assert_eq!(TokenType::If.regex_str(), r"if[^\w\d]");
    assert_eq!(TokenType::Else.regex_str(), r"else[^\w\d]");
    assert_eq!(TokenType::CharArray.regex_str(), "\".*?[^\\\\]\"|\"\"");
    assert_eq!(TokenType::Alphanumeric.regex_str(), r"[a-zA-Z_]\w*");
    assert_eq!(TokenType::Number.regex_str(), r"\d+(\.\d+)?");
    assert_eq!(TokenType::Space.regex_str(), " ");
    assert_eq!(TokenType::NewLine.regex_str(), r"\n");
    assert_eq!(TokenType::EqualSign.regex_str(), "==");
    assert_eq!(TokenType::Assign.regex_str(), "=");
}

#[test]
fn match_order_lists_every_category_once() {
    let order = match_order();
    assert_eq!(order.len(), 35);
    for t in &order {
        assert_eq!(order.iter().filter(|u| *u == t).count(), 1);
    }
}

#[test]
fn match_order_puts_keywords_before_identifier() {
    let order = match_order();
    let pos = |t: TokenType| order.iter().position(|u| *u == t).unwrap();
    let ident = pos(TokenType::Alphanumeric);
    for kw in [
        TokenType::VariableAssign,
        TokenType::ImportKeyword,
        TokenType::FunctionAssign,
        TokenType::Query,
        TokenType::True,
        TokenType::False,
        TokenType::Null,
        TokenType::If,
        TokenType::Else,
    ] {
        assert!(pos(kw) < ident);
    }
    assert!(pos(TokenType::EqualSign) < pos(TokenType::Assign));
    assert!(pos(TokenType::GreaterOrEqual) < pos(TokenType::Greater));
    assert!(pos(TokenType::LessOrEqual) < pos(TokenType::Less));
}

#[test]
fn category_sets() {
    let ws = whitespace_tokens();
    assert_eq!(
        ws,
        vec![TokenType::NewLine, TokenType::Space, TokenType::Indent, TokenType::Carriage]
    );
    let ops = binary_operator_tokens();
    assert_eq!(ops.len(), 10);
    assert!(ops.contains(&TokenType::Addition));
    assert!(ops.contains(&TokenType::GreaterOrEqual));
    assert!(!ops.contains(&TokenType::Assign));
    let formulas = formula_tokens();
    assert_eq!(
        formulas,
        vec![
            TokenType::CharArray,
            TokenType::Number,
            TokenType::Alphanumeric,
            TokenType::True,
            TokenType::False,
            TokenType::Null,
        ]
    );
}

use blaze::ast::{AstError, BooleanNode, NodeKind};
use blaze::tokens::TokenType;

#[test]
fn boolean_node_from_true() {
    let node = BooleanNode::new(TokenType::True).unwrap();
    assert!(node.state);
}

#[test]
fn boolean_node_from_false() {
    let node = BooleanNode::new(TokenType::False).unwrap();
    assert!(!node.state);
}

#[test]
fn boolean_node_rejects_other_categories() {
    match BooleanNode::new(TokenType::Number) {
        Err(AstError::InvalidLiteral { found, expected }) => {
            assert_eq!(found, TokenType::Number);
            assert_eq!(expected, NodeKind::Boolean);
        },
        Ok(_) => panic!("expected an error"),
    }
    assert!(BooleanNode::new(TokenType::Null).is_err());
    assert!(BooleanNode::new(TokenType::Alphanumeric).is_err());
}

#[test]
fn boolean_node_default_is_false() {
    let node = BooleanNode::default();
    assert!(!node.state);
    assert_eq!(node, BooleanNode::new(TokenType::False).unwrap());
}

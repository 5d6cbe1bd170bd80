//! The expression-tree capability and its first concrete node.
//!
//! `ExpressionNode` is the structural contract every expression-tree node
//! type must satisfy: constructible from lexical input and substitutable
//! wherever an expression is expected. It requires no further behaviour at
//! this stage; future node kinds (binary expression, query call, identifier
//! reference, literal number and text, conditional) are expected to satisfy
//! the same capability. `BooleanNode` is the first concrete variant.

use vstd::prelude::*;
use crate::tokens::TokenType;

verus! {

/// The capability every expression-tree node must satisfy. It asks for no
/// operations yet: it is the extension point the taxonomy's formula
/// categories will feed as more node kinds are added.
pub trait ExpressionNode {

}

/// The node kind a constructor was building when it failed, named in
/// [`AstError::InvalidLiteral`] so a parser can retry with another
/// constructor.
#[derive(Debug, Clone, Copy, PartialEq, Eq, Structural)]
pub enum NodeKind {
    Boolean,
}

/// An expression-tree construction error: terminal for the construction
/// that raised it, surfaced to the caller and never swallowed.
#[derive(Debug, Clone, Copy, PartialEq, Eq, Structural)]
pub enum AstError {
    /// A node constructor received a token category incompatible with the
    /// node kind being built.
    InvalidLiteral { found: TokenType, expected: NodeKind },
}

/// A boolean literal node: holds the single value a True or False token
/// stands for.
#[derive(Debug, Clone, Copy, PartialEq, Eq, Structural)]
pub struct BooleanNode {
    pub state: bool,
}

impl BooleanNode {
    /// Builds the node from a token category: exactly the True and False
    /// categories are accepted; any other category fails with
    /// [`AstError::InvalidLiteral`] naming the offending category.
    pub fn new(token_type: TokenType) -> (r: Result<BooleanNode, AstError>)
        ensures
            token_type == TokenType::True ==> r == Ok::<BooleanNode, AstError>(
                BooleanNode { state: true },
            ),
            token_type == TokenType::False ==> r == Ok::<BooleanNode, AstError>(
                BooleanNode { state: false },
            ),
            !(token_type == TokenType::True || token_type == TokenType::False) ==> r
                == Err::<BooleanNode, AstError>(
                AstError::InvalidLiteral { found: token_type, expected: NodeKind::Boolean },
            ),
    {
        match token_type {
            TokenType::True => Ok(BooleanNode { state: true }),
            TokenType::False => Ok(BooleanNode { state: false }),
            _ => Err(AstError::InvalidLiteral { found: token_type, expected: NodeKind::Boolean }),
        }
    }
}

impl ExpressionNode for BooleanNode {

}

impl Default for BooleanNode {
    /// The fixed fallback node: holds `false`, as if constructed from the
    /// False category, and never fails.
    fn default() -> (r: BooleanNode)
        ensures
            r == (BooleanNode { state: false }),
    {
        BooleanNode { state: false }
    }
}

} // verus!

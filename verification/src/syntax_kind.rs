//! The shared vocabulary of token and node tags.

use vstd::prelude::*;

verus! {

/// Tag of a token or of a tree node.
///
/// One closed enumeration labels both the leaves that a lexer produces and the
/// interior nodes that the grammar opens, so that lexer, parser and tree
/// consumer agree on a single set of kinds.
#[allow(non_camel_case_types)]
#[derive(Clone, Copy, Debug, PartialEq, Eq, Structural, Hash)]
pub enum SyntaxKind {
    /// Sentinel reported by a token source once its input is exhausted. It
    /// stands for no token and never becomes a leaf.
    EOF,
    /// A run of horizontal space, kept as an ordinary token.
    WHITESPACE,
    /// An identifier.
    IDENT,
    /// The keyword `let`.
    LET_KW,
    /// The operator `=`.
    EQ,
    /// Node: the root of a tree.
    ROOT,
    /// Node: a `let` statement.
    LET_STMT,
    /// Node: the variable that a `let` statement assigns to.
    LET_VAR,
}

} // verus!

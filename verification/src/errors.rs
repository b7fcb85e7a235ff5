use vstd::prelude::*;

verus! {

/// Every failure the AST builder can report.  Each kind is distinct, so a
/// caller can see precisely which rule was violated; errors propagate
/// unchanged to the top-level entry point and no partial AST accompanies one.
#[derive(Debug, Clone, Copy, PartialEq, Eq, Structural)]
pub enum CompilerError {
    /// The token source produced no top-level container for non-empty input.
    MissingRootNode,
    /// A rule's expected child or sub-token was absent or malformed
    /// (structural shape violation).
    MissingNode,
    /// A token's rule tag has no dispatch arm (unknown or not-yet-implemented
    /// construct).
    UnrecognizedSyntax,
    /// A symbol name is not in the fixed fifteen-entry table.
    UnrecognizedSymbol,
    /// The anchor-like name "start" was negated.
    NegativeStartNotAllowed,
    /// The anchor-like name "end" was negated.
    NegativeEndNotAllowed,
    /// A quantifier's operand was itself a quantifier.
    UnexpectedQuantifierInQuantifier,
    /// A quantifier's operand was a token with no semantic content.
    UnexpectedSkippedNodeInQuantifier,
}

} // verus!

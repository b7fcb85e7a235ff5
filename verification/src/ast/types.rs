use vstd::prelude::*;

verus! {

// ========================
// ===== QUANTIFIERS ======
// ========================

/// How often a quantified expression repeats.
///
/// `Range` carries inclusive bounds and is only ever constructed with
/// `start <= end`; `SomeOf` is one-or-more, `AnyOf` zero-or-more, `Over(n)`
/// more than `n`, `OptionOf` zero-or-one, and `Amount(n)` exactly `n`.
#[derive(Debug, Clone, Copy, PartialEq, Eq, Structural)]
pub enum QuantifierKind {
    Range { start: u32, end: u32 },
    SomeOf,
    AnyOf,
    Over(u32),
    OptionOf,
    Amount(u32),
}

/// A repetition wrapping one narrowed expression.  `lazy` marks non-greedy
/// matching intent.
#[derive(Debug, Clone, PartialEq, Eq)]
pub struct Quantifier {
    pub kind: QuantifierKind,
    pub lazy: bool,
    pub expression: Box<Expression>,
}

/// The node kinds legal as a quantifier operand: a strict narrowing of
/// [`AlaniAstNode`].  Illegal operand kinds are unrepresentable once
/// narrowing succeeds.
#[derive(Debug, Clone, PartialEq, Eq)]
pub enum Expression {
    Atom(Vec<char>),
    Symbol(Symbol),
}

// ========================
// ======= SYMBOLS ========
// ========================

/// A named character class, optionally negated.
#[derive(Debug, Clone, Copy, PartialEq, Eq, Structural)]
pub struct Symbol {
    pub kind: SymbolKind,
    pub negated: bool,
}

/// The closed table of the fifteen recognized character classes.
#[derive(Debug, Clone, Copy, PartialEq, Eq, Structural)]
pub enum SymbolKind {
    Space,
    Newline,
    Vertical,
    Return,
    Tab,
    Null,
    Whitespace,
    Alphabetic,
    Alphanumeric,
    Char,
    Digit,
    Word,
    Feed,
    Backspace,
    Boundary,
}

// ========================
// ========= AST ==========
// ========================

/// One node of the program tree.  `Atom` carries a literal or raw text
/// fragment, `Skip` marks a token contributing no semantic content
/// (currently only the end-of-input marker).
#[derive(Debug, Clone, PartialEq, Eq)]
pub enum AlaniAstNode {
    Quantifier(Quantifier),
    Atom(Vec<char>),
    Symbol(Symbol),
    Skip,
}

/// A whole program: either `Empty` (the source text was empty) or `Root`
/// holding the top-level nodes in source order.
#[derive(Debug, Clone, PartialEq, Eq)]
pub enum AlaniAst {
    Root(Vec<AlaniAstNode>),
    Empty,
}

// ========================
// ==== MATHEMATICAL VIEW =
// ========================

/// The mathematical value of an [`Expression`]: text as a character
/// sequence.
pub enum ExpressionModel {
    Atom(Seq<char>),
    Symbol(Symbol),
}

/// The mathematical value of a [`Quantifier`].
pub struct QuantifierModel {
    pub kind: QuantifierKind,
    pub lazy: bool,
    pub expression: ExpressionModel,
}

/// The mathematical value of an [`AlaniAstNode`].
pub enum NodeModel {
    Quantifier(QuantifierModel),
    Atom(Seq<char>),
    Symbol(Symbol),
    Skip,
}

/// The mathematical value of an [`AlaniAst`].
pub enum AstModel {
    Root(Seq<NodeModel>),
    Empty,
}

impl View for Expression {
    type V = ExpressionModel;

    open spec fn view(&self) -> ExpressionModel {
        match self {
            Expression::Atom(text) => ExpressionModel::Atom(text@),
            Expression::Symbol(symbol) => ExpressionModel::Symbol(*symbol),
        }
    }
}

impl View for Quantifier {
    type V = QuantifierModel;

    open spec fn view(&self) -> QuantifierModel {
        QuantifierModel { kind: self.kind, lazy: self.lazy, expression: self.expression@ }
    }
}

impl View for AlaniAstNode {
    type V = NodeModel;

    open spec fn view(&self) -> NodeModel {
        match self {
            AlaniAstNode::Quantifier(q) => NodeModel::Quantifier(q@),
            AlaniAstNode::Atom(text) => NodeModel::Atom(text@),
            AlaniAstNode::Symbol(symbol) => NodeModel::Symbol(*symbol),
            AlaniAstNode::Skip => NodeModel::Skip,
        }
    }
}

/// The mathematical value of a node sequence, element by element.
pub open spec fn nodes_view(nodes: Seq<AlaniAstNode>) -> Seq<NodeModel> {
    nodes.map_values(|n: AlaniAstNode| n@)
}

impl View for AlaniAst {
    type V = AstModel;

    open spec fn view(&self) -> AstModel {
        match self {
            AlaniAst::Root(nodes) => AstModel::Root(nodes_view(nodes@)),
            AlaniAst::Empty => AstModel::Empty,
        }
    }
}

// ========================
// === WELL-FORMEDNESS ====
// ========================

/// A quantifier kind is well formed when a `Range` keeps its bounds ordered.
pub open spec fn quantifier_kind_wf(kind: QuantifierKind) -> bool {
    match kind {
        QuantifierKind::Range { start, end } => start <= end,
        _ => true,
    }
}

/// A node is well formed when every quantifier in it is.  Quantifier
/// operands are atoms or symbols by construction, so no recursion is needed.
pub open spec fn node_wf(node: NodeModel) -> bool {
    match node {
        NodeModel::Quantifier(q) => quantifier_kind_wf(q.kind),
        _ => true,
    }
}

/// A program is well formed when all of its nodes are.
pub open spec fn ast_wf(ast: AstModel) -> bool {
    match ast {
        AstModel::Root(nodes) => forall|i: int| 0 <= i < nodes.len() ==> node_wf(#[trigger] nodes[i]),
        AstModel::Empty => true,
    }
}

} // verus!

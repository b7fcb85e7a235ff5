use vstd::prelude::*;

use std::collections::HashMap;

use crate::ast::tokens::{token_wf, Rule, Token};
use crate::ast::types::{
    ast_wf, node_wf, nodes_view, quantifier_kind_wf, AlaniAst, AlaniAstNode, AstModel, Expression,
    ExpressionModel, NodeModel, Quantifier, QuantifierKind, QuantifierModel, Symbol, SymbolKind,
};
use crate::ast::utils::{
    first_inner, first_last_inner_str, last_inner, parse_u32, spec_parse_u32,
    spec_unquote_escape_literal, spec_unquote_escape_raw, text_eq_str, unquote_escape_literal,
    unquote_escape_raw,
};
use crate::errors::CompilerError;

verus! {

// ========================
// ==== RESULT VIEWING ====
// ========================

/// The mathematical value of a node result.
pub open spec fn node_result_view(r: Result<AlaniAstNode, CompilerError>) -> Result<
    NodeModel,
    CompilerError,
> {
    match r {
        Result::Ok(n) => Result::Ok(n@),
        Result::Err(e) => Result::Err(e),
    }
}

/// The mathematical value of an expression result.
pub open spec fn expr_result_view(r: Result<Expression, CompilerError>) -> Result<
    ExpressionModel,
    CompilerError,
> {
    match r {
        Result::Ok(x) => Result::Ok(x@),
        Result::Err(e) => Result::Err(e),
    }
}

/// The mathematical value of a program result.
pub open spec fn ast_result_view(r: Result<AlaniAst, CompilerError>) -> Result<
    AstModel,
    CompilerError,
> {
    match r {
        Result::Ok(a) => Result::Ok(a@),
        Result::Err(e) => Result::Err(e),
    }
}

// ========================
// ==== SYMBOL RESOLVER ===
// ========================

/// The fixed fifteen-entry table from symbol name to character class.
pub open spec fn spec_symbol_kind(name: Seq<char>) -> Option<SymbolKind> {
    if name == "space"@ {
        Option::Some(SymbolKind::Space)
    } else if name == "newline"@ {
        Option::Some(SymbolKind::Newline)
    } else if name == "vertical"@ {
        Option::Some(SymbolKind::Vertical)
    } else if name == "word"@ {
        Option::Some(SymbolKind::Word)
    } else if name == "digit"@ {
        Option::Some(SymbolKind::Digit)
    } else if name == "whitespace"@ {
        Option::Some(SymbolKind::Whitespace)
    } else if name == "boundary"@ {
        Option::Some(SymbolKind::Boundary)
    } else if name == "alphabetic"@ {
        Option::Some(SymbolKind::Alphabetic)
    } else if name == "alphanumeric"@ {
        Option::Some(SymbolKind::Alphanumeric)
    } else if name == "return"@ {
        Option::Some(SymbolKind::Return)
    } else if name == "tab"@ {
        Option::Some(SymbolKind::Tab)
    } else if name == "null"@ {
        Option::Some(SymbolKind::Null)
    } else if name == "feed"@ {
        Option::Some(SymbolKind::Feed)
    } else if name == "char"@ {
        Option::Some(SymbolKind::Char)
    } else if name == "backspace"@ {
        Option::Some(SymbolKind::Backspace)
    } else {
        Option::None
    }
}

/// Looks a symbol name up in the fixed table.
pub fn symbol_kind_of(name: &Vec<char>) -> (r: Option<SymbolKind>)
    ensures
        r == spec_symbol_kind(name@),
{
    if text_eq_str(name, "space") {
        Some(SymbolKind::Space)
    } else if text_eq_str(name, "newline") {
        Some(SymbolKind::Newline)
    } else if text_eq_str(name, "vertical") {
        Some(SymbolKind::Vertical)
    } else if text_eq_str(name, "word") {
        Some(SymbolKind::Word)
    } else if text_eq_str(name, "digit") {
        Some(SymbolKind::Digit)
    } else if text_eq_str(name, "whitespace") {
        Some(SymbolKind::Whitespace)
    } else if text_eq_str(name, "boundary") {
        Some(SymbolKind::Boundary)
    } else if text_eq_str(name, "alphabetic") {
        Some(SymbolKind::Alphabetic)
    } else if text_eq_str(name, "alphanumeric") {
        Some(SymbolKind::Alphanumeric)
    } else if text_eq_str(name, "return") {
        Some(SymbolKind::Return)
    } else if text_eq_str(name, "tab") {
        Some(SymbolKind::Tab)
    } else if text_eq_str(name, "null") {
        Some(SymbolKind::Null)
    } else if text_eq_str(name, "feed") {
        Some(SymbolKind::Feed)
    } else if text_eq_str(name, "char") {
        Some(SymbolKind::Char)
    } else if text_eq_str(name, "backspace") {
        Some(SymbolKind::Backspace)
    } else {
        None
    }
}

/// What resolving a symbol token yields: its first child is the negation
/// marker slot (negation is equality to the marker text "not"), its last
/// child the name slot.  A negated anchor name fails with the matching
/// anchor-specific error before the table is consulted; a name outside the
/// table fails with `UnrecognizedSymbol`.
pub open spec fn spec_parse_symbol(t: Token) -> Result<NodeModel, CompilerError> {
    if t.children@.len() == 0 {
        Result::Err(CompilerError::MissingNode)
    } else {
        let negated = t.children@[0].text@ == "not"@;
        let name = t.children@.last().text@;
        if negated && name == "start"@ {
            Result::Err(CompilerError::NegativeStartNotAllowed)
        } else if negated && name == "end"@ {
            Result::Err(CompilerError::NegativeEndNotAllowed)
        } else {
            match spec_symbol_kind(name) {
                Option::Some(kind) => Result::Ok(NodeModel::Symbol(Symbol { kind, negated })),
                Option::None => Result::Err(CompilerError::UnrecognizedSymbol),
            }
        }
    }
}

/// Converts a symbol token into a symbol AST node.
fn parse_symbol(pair: &Token) -> (r: Result<AlaniAstNode, CompilerError>)
    ensures
        node_result_view(r) == spec_parse_symbol(*pair),
{
    let (negated_text, symbol) = match first_last_inner_str(pair) {
        Result::Ok(p) => p,
        Result::Err(e) => {
            return Err(e);
        },
    };

    let negated = text_eq_str(negated_text, "not");

    // The special 'start' and 'end' symbols must not be negated
    if negated {
        if text_eq_str(symbol, "start") {
            return Err(CompilerError::NegativeStartNotAllowed);
        }
        if text_eq_str(symbol, "end") {
            return Err(CompilerError::NegativeEndNotAllowed);
        }
    }

    match symbol_kind_of(symbol) {
        Option::Some(kind) => Ok(AlaniAstNode::Symbol(Symbol { kind, negated })),
        Option::None => Err(CompilerError::UnrecognizedSymbol),
    }
}

/// Law: the table resolves each of the fifteen recognized names to its own
/// class and no other.
pub proof fn lemma_symbol_table()
    ensures
        spec_symbol_kind("space"@) == Option::Some(SymbolKind::Space),
        spec_symbol_kind("newline"@) == Option::Some(SymbolKind::Newline),
        spec_symbol_kind("vertical"@) == Option::Some(SymbolKind::Vertical),
        spec_symbol_kind("word"@) == Option::Some(SymbolKind::Word),
        spec_symbol_kind("digit"@) == Option::Some(SymbolKind::Digit),
        spec_symbol_kind("whitespace"@) == Option::Some(SymbolKind::Whitespace),
        spec_symbol_kind("boundary"@) == Option::Some(SymbolKind::Boundary),
        spec_symbol_kind("alphabetic"@) == Option::Some(SymbolKind::Alphabetic),
        spec_symbol_kind("alphanumeric"@) == Option::Some(SymbolKind::Alphanumeric),
        spec_symbol_kind("return"@) == Option::Some(SymbolKind::Return),
        spec_symbol_kind("tab"@) == Option::Some(SymbolKind::Tab),
        spec_symbol_kind("null"@) == Option::Some(SymbolKind::Null),
        spec_symbol_kind("feed"@) == Option::Some(SymbolKind::Feed),
        spec_symbol_kind("char"@) == Option::Some(SymbolKind::Char),
        spec_symbol_kind("backspace"@) == Option::Some(SymbolKind::Backspace),
        spec_symbol_kind("start"@) == Option::<SymbolKind>::None,
        spec_symbol_kind("end"@) == Option::<SymbolKind>::None,
{
    reveal_strlit("space");
    reveal_strlit("newline");
    reveal_strlit("vertical");
    reveal_strlit("word");
    reveal_strlit("digit");
    reveal_strlit("whitespace");
    reveal_strlit("boundary");
    reveal_strlit("alphabetic");
    reveal_strlit("alphanumeric");
    reveal_strlit("return");
    reveal_strlit("tab");
    reveal_strlit("null");
    reveal_strlit("feed");
    reveal_strlit("char");
    reveal_strlit("backspace");
    reveal_strlit("start");
    reveal_strlit("end");
    assert("space"@.len() == 5);
    assert("newline"@.len() == 7);
    assert("vertical"@.len() == 8);
    assert("word"@.len() == 4);
    assert("digit"@.len() == 5);
    assert("whitespace"@.len() == 10);
    assert("boundary"@.len() == 8);
    assert("alphabetic"@.len() == 10);
    assert("alphanumeric"@.len() == 12);
    assert("return"@.len() == 6);
    assert("tab"@.len() == 3);
    assert("null"@.len() == 4);
    assert("feed"@.len() == 4);
    assert("char"@.len() == 4);
    assert("backspace"@.len() == 9);
    assert("start"@.len() == 5);
    assert("end"@.len() == 3);
    assert("digit"@[0] == 'd' && "space"@[0] == 's' && "start"@[0] == 's' && "start"@[1] == 't'
        && "space"@[1] == 'p');
    assert("word"@[0] == 'w' && "null"@[0] == 'n' && "feed"@[0] == 'f' && "char"@[0] == 'c');
    assert("vertical"@[0] == 'v' && "boundary"@[0] == 'b');
    assert("whitespace"@[0] == 'w' && "alphabetic"@[0] == 'a');
    assert("tab"@[0] == 't' && "end"@[0] == 'e');
}

/// Law: negating the anchor names "start" and "end" always fails with the
/// matching anchor-specific error, whatever else the token holds.
pub proof fn lemma_negated_anchor_rejected(t: Token)
    requires
        t.rule == Rule::Symbol,
        t.children@.len() > 0,
        t.children@[0].text@ == "not"@,
    ensures
        t.children@.last().text@ == "start"@ ==> spec_create_ast_node(t) == Result::<
            NodeModel,
            CompilerError,
        >::Err(CompilerError::NegativeStartNotAllowed),
        t.children@.last().text@ == "end"@ ==> spec_create_ast_node(t) == Result::<
            NodeModel,
            CompilerError,
        >::Err(CompilerError::NegativeEndNotAllowed),
{
    reveal_strlit("start");
    reveal_strlit("end");
    assert("start"@.len() == 5);
    assert("end"@.len() == 3);
}

/// Law: a symbol token whose name is not a negated anchor round-trips: a
/// name in the table yields exactly that class with exactly the requested
/// negation, and any other name fails with `UnrecognizedSymbol`.
pub proof fn lemma_symbol_round_trip(t: Token)
    requires
        t.rule == Rule::Symbol,
        t.children@.len() > 0,
        !(t.children@[0].text@ == "not"@ && (t.children@.last().text@ == "start"@
            || t.children@.last().text@ == "end"@)),
    ensures
        ({
            let negated = t.children@[0].text@ == "not"@;
            let name = t.children@.last().text@;
            match spec_symbol_kind(name) {
                Option::Some(kind) => spec_create_ast_node(t) == Result::<
                    NodeModel,
                    CompilerError,
                >::Ok(NodeModel::Symbol(Symbol { kind, negated })),
                Option::None => spec_create_ast_node(t) == Result::<
                    NodeModel,
                    CompilerError,
                >::Err(CompilerError::UnrecognizedSymbol),
            }
        }),
{
}

// ========================
// == EXPRESSION NARROWER =
// ========================

/// What narrowing yields for each node kind: only atoms and symbols are
/// legal quantifier operands; every other kind maps to its own distinct
/// error.
pub open spec fn spec_narrow(node: NodeModel) -> Result<ExpressionModel, CompilerError> {
    match node {
        NodeModel::Atom(atom) => Result::Ok(ExpressionModel::Atom(atom)),
        NodeModel::Symbol(symbol) => Result::Ok(ExpressionModel::Symbol(symbol)),
        NodeModel::Quantifier(_) => Result::Err(CompilerError::UnexpectedQuantifierInQuantifier),
        NodeModel::Skip => Result::Err(CompilerError::UnexpectedSkippedNodeInQuantifier),
    }
}

/// Restricts an already-built node to the kinds legal inside a quantifier.
pub fn narrow_expression(node: AlaniAstNode) -> (r: Result<Expression, CompilerError>)
    ensures
        expr_result_view(r) == spec_narrow(node@),
{
    match node {
        AlaniAstNode::Atom(atom) => Ok(Expression::Atom(atom)),
        AlaniAstNode::Symbol(symbol) => Ok(Expression::Symbol(symbol)),
        AlaniAstNode::Quantifier(_) => Err(CompilerError::UnexpectedQuantifierInQuantifier),
        AlaniAstNode::Skip => Err(CompilerError::UnexpectedSkippedNodeInQuantifier),
    }
}

// ========================
// == QUANTIFIER BUILDER ==
// ========================

/// The leading marker character on a quantity token's text that requests
/// non-greedy matching.
pub open spec fn lazy_marked(text: Seq<char>) -> bool {
    text.len() > 0 && text[0] == '?'
}

/// What deriving a quantifier kind from the quantity's kind sub-token
/// yields.  Keyword tags map to their kind directly; `Over` and `Amount`
/// carry their count as the sub-token's decimal text; a bounded range
/// carries its two bounds as its first and last child and must keep them
/// ordered.  A malformed count is a shape violation (`MissingNode`); an
/// unknown tag in kind position has no arm (`UnrecognizedSyntax`).
pub open spec fn spec_quantifier_kind(t: Token) -> Result<QuantifierKind, CompilerError> {
    match t.rule {
        Rule::QuantitySome => Result::Ok(QuantifierKind::SomeOf),
        Rule::QuantityAny => Result::Ok(QuantifierKind::AnyOf),
        Rule::QuantityOption => Result::Ok(QuantifierKind::OptionOf),
        Rule::QuantityOver => match spec_parse_u32(t.text@) {
            Option::Some(n) => Result::Ok(QuantifierKind::Over(n)),
            Option::None => Result::Err(CompilerError::MissingNode),
        },
        Rule::QuantityAmount => match spec_parse_u32(t.text@) {
            Option::Some(n) => Result::Ok(QuantifierKind::Amount(n)),
            Option::None => Result::Err(CompilerError::MissingNode),
        },
        Rule::QuantityRange => {
            if t.children@.len() == 0 {
                Result::Err(CompilerError::MissingNode)
            } else {
                match spec_parse_u32(t.children@[0].text@) {
                    Option::None => Result::Err(CompilerError::MissingNode),
                    Option::Some(start) => match spec_parse_u32(t.children@.last().text@) {
                        Option::None => Result::Err(CompilerError::MissingNode),
                        Option::Some(end) => if start <= end {
                            Result::Ok(QuantifierKind::Range { start, end })
                        } else {
                            Result::Err(CompilerError::MissingNode)
                        },
                    },
                }
            }
        },
        _ => Result::Err(CompilerError::UnrecognizedSyntax),
    }
}

/// Derives the quantifier kind from the quantity's kind sub-token.
pub fn quantifier_kind(kind_token: &Token) -> (r: Result<QuantifierKind, CompilerError>)
    ensures
        r == spec_quantifier_kind(*kind_token),
{
    match kind_token.rule {
        Rule::QuantitySome => Ok(QuantifierKind::SomeOf),
        Rule::QuantityAny => Ok(QuantifierKind::AnyOf),
        Rule::QuantityOption => Ok(QuantifierKind::OptionOf),
        Rule::QuantityOver => match parse_u32(&kind_token.text) {
            Option::Some(n) => Ok(QuantifierKind::Over(n)),
            Option::None => Err(CompilerError::MissingNode),
        },
        Rule::QuantityAmount => match parse_u32(&kind_token.text) {
            Option::Some(n) => Ok(QuantifierKind::Amount(n)),
            Option::None => Err(CompilerError::MissingNode),
        },
        Rule::QuantityRange => {
            let start_token = match first_inner(kind_token) {
                Result::Ok(t) => t,
                Result::Err(e) => {
                    return Err(e);
                },
            };
            let end_token = match last_inner(kind_token) {
                Result::Ok(t) => t,
                Result::Err(e) => {
                    return Err(e);
                },
            };
            match parse_u32(&start_token.text) {
                Option::None => Err(CompilerError::MissingNode),
                Option::Some(start) => match parse_u32(&end_token.text) {
                    Option::None => Err(CompilerError::MissingNode),
                    Option::Some(end) => if start <= end {
                        Ok(QuantifierKind::Range { start, end })
                    } else {
                        Err(CompilerError::MissingNode)
                    },
                },
            }
        },
        _ => Err(CompilerError::UnrecognizedSyntax),
    }
}

// ========================
// ==== AST DISPATCHER ====
// ========================

/// What dispatching one token yields, by its rule tag.  Raw and literal
/// text tokens become atoms through the unescaper, symbol tokens go through
/// the resolver, quantifier tokens through the quantifier builder, the
/// end-of-input marker contributes nothing, and every other tag — the
/// not-yet-implemented constructs included — fails loudly.
pub open spec fn spec_create_ast_node(t: Token) -> Result<NodeModel, CompilerError>
    decreases t, 1int,
{
    match t.rule {
        Rule::Raw => Result::Ok(NodeModel::Atom(spec_unquote_escape_raw(t.text@))),
        Rule::Literal => Result::Ok(NodeModel::Atom(spec_unquote_escape_literal(t.text@))),
        Rule::Symbol => spec_parse_symbol(t),
        Rule::Quantifier => spec_parse_quantifier(t),
        Rule::Eoi => Result::Ok(NodeModel::Skip),
        _ => Result::Err(CompilerError::UnrecognizedSyntax),
    }
}

/// What building a quantifier yields: its first child is the quantity
/// descriptor (whose first child is the kind sub-token and whose own text
/// may open with the lazy marker), its last child the quantified
/// expression, dispatched recursively and then narrowed.
pub open spec fn spec_parse_quantifier(t: Token) -> Result<NodeModel, CompilerError>
    decreases t, 0int,
{
    if t.children@.len() == 0 {
        Result::Err(CompilerError::MissingNode)
    } else {
        let quantity = t.children@[0];
        if quantity.children@.len() == 0 {
            Result::Err(CompilerError::MissingNode)
        } else {
            match spec_create_ast_node(t.children@[t.children@.len() - 1]) {
                Result::Err(e) => Result::Err(e),
                Result::Ok(node) => match spec_narrow(node) {
                    Result::Err(e) => Result::Err(e),
                    Result::Ok(expression) => match spec_quantifier_kind(quantity.children@[0]) {
                        Result::Err(e) => Result::Err(e),
                        Result::Ok(kind) => Result::Ok(
                            NodeModel::Quantifier(
                                QuantifierModel {
                                    kind,
                                    lazy: lazy_marked(quantity.text@),
                                    expression,
                                },
                            ),
                        ),
                    },
                },
            }
        }
    }
}

/// Converts a token into an AST node.
fn create_ast_node(pair: &Token, env: &mut HashMap<String, AlaniAst>) -> (r: Result<
    AlaniAstNode,
    CompilerError,
>)
    requires
        token_wf(*pair),
    ensures
        node_result_view(r) == spec_create_ast_node(*pair),
        *final(env) == *old(env),
    decreases *pair, 1int,
{
    match pair.rule {
        Rule::Raw => Ok(AlaniAstNode::Atom(unquote_escape_raw(pair))),
        Rule::Literal => Ok(AlaniAstNode::Atom(unquote_escape_literal(pair))),
        Rule::Symbol => parse_symbol(pair),
        Rule::Quantifier => parse_quantifier(pair, env),
        Rule::Eoi => Ok(AlaniAstNode::Skip),
        _ => Err(CompilerError::UnrecognizedSyntax),
    }
}

/// Converts a quantifier token into a quantifier AST node.
fn parse_quantifier(pair: &Token, variables: &mut HashMap<String, AlaniAst>) -> (r: Result<
    AlaniAstNode,
    CompilerError,
>)
    requires
        token_wf(*pair),
        pair.rule == Rule::Quantifier,
    ensures
        node_result_view(r) == spec_parse_quantifier(*pair),
        *final(variables) == *old(variables),
    decreases *pair, 0int,
{
    let quantity = match first_inner(pair) {
        Result::Ok(q) => q,
        Result::Err(e) => {
            return Err(e);
        },
    };
    let kind_token = match first_inner(quantity) {
        Result::Ok(k) => k,
        Result::Err(e) => {
            return Err(e);
        },
    };
    let last = match last_inner(pair) {
        Result::Ok(l) => l,
        Result::Err(e) => {
            return Err(e);
        },
    };
    proof {
        assert(*last == pair.children@[pair.children@.len() - 1]);
        assert(decreases_to!(*pair => pair.children@[pair.children@.len() - 1]));
        assert(token_wf(*last));
    }
    let node = match create_ast_node(last, variables) {
        Result::Ok(n) => n,
        Result::Err(e) => {
            return Err(e);
        },
    };
    let expression = match narrow_expression(node) {
        Result::Ok(x) => x,
        Result::Err(e) => {
            return Err(e);
        },
    };
    let lazy = quantity.text.len() > 0 && quantity.text[0] == '?';
    let kind = match quantifier_kind(kind_token) {
        Result::Ok(k) => k,
        Result::Err(e) => {
            return Err(e);
        },
    };
    Ok(AlaniAstNode::Quantifier(Quantifier { kind, lazy, expression: Box::new(expression) }))
}

/// Law: a token whose rule tag has no dispatch arm — the unimplemented
/// constructs included — always fails with `UnrecognizedSyntax`.
pub proof fn lemma_unrecognized_syntax(t: Token)
    requires
        t.rule != Rule::Raw,
        t.rule != Rule::Literal,
        t.rule != Rule::Symbol,
        t.rule != Rule::Quantifier,
        t.rule != Rule::Eoi,
    ensures
        spec_create_ast_node(t) == Result::<NodeModel, CompilerError>::Err(
            CompilerError::UnrecognizedSyntax,
        ),
{
}

/// Law: an error from a quantifier's operand propagates unchanged through
/// the quantifier.
pub proof fn lemma_quantifier_propagates_operand_error(t: Token, e: CompilerError)
    requires
        t.rule == Rule::Quantifier,
        t.children@.len() > 0,
        t.children@[0].children@.len() > 0,
        spec_create_ast_node(t.children@[t.children@.len() - 1]) == Result::<
            NodeModel,
            CompilerError,
        >::Err(e),
    ensures
        spec_create_ast_node(t) == Result::<NodeModel, CompilerError>::Err(e),
{
}

/// Law: a quantifier accepts a bare atom or a symbol as its operand and
/// rejects a nested quantifier or a skipped node with the matching error.
pub proof fn lemma_quantifier_operand_narrowing(t: Token)
    requires
        t.rule == Rule::Quantifier,
        t.children@.len() > 0,
        t.children@[0].children@.len() > 0,
    ensures
        ({
            let operand = spec_create_ast_node(t.children@[t.children@.len() - 1]);
            let kind = spec_quantifier_kind(t.children@[0].children@[0]);
            match operand {
                Result::Ok(n) => match n {
                    NodeModel::Quantifier(_) => spec_create_ast_node(t) == Result::<
                        NodeModel,
                        CompilerError,
                    >::Err(CompilerError::UnexpectedQuantifierInQuantifier),
                    NodeModel::Skip => spec_create_ast_node(t) == Result::<
                        NodeModel,
                        CompilerError,
                    >::Err(CompilerError::UnexpectedSkippedNodeInQuantifier),
                    NodeModel::Atom(a) => match kind {
                        Result::Ok(k) => spec_create_ast_node(t) == Result::<
                            NodeModel,
                            CompilerError,
                        >::Ok(
                            NodeModel::Quantifier(
                                QuantifierModel {
                                    kind: k,
                                    lazy: lazy_marked(t.children@[0].text@),
                                    expression: ExpressionModel::Atom(a),
                                },
                            ),
                        ),
                        Result::Err(e) => spec_create_ast_node(t) == Result::<
                            NodeModel,
                            CompilerError,
                        >::Err(e),
                    },
                    NodeModel::Symbol(s) => match kind {
                        Result::Ok(k) => spec_create_ast_node(t) == Result::<
                            NodeModel,
                            CompilerError,
                        >::Ok(
                            NodeModel::Quantifier(
                                QuantifierModel {
                                    kind: k,
                                    lazy: lazy_marked(t.children@[0].text@),
                                    expression: ExpressionModel::Symbol(s),
                                },
                            ),
                        ),
                        Result::Err(e) => spec_create_ast_node(t) == Result::<
                            NodeModel,
                            CompilerError,
                        >::Err(e),
                    },
                },
                Result::Err(_) => true,
            }
        }),
{
    assert(spec_create_ast_node(t) == spec_parse_quantifier(t));
}

/// Law: a quantifier that builds is lazy exactly when the quantity token's
/// text opens with the lazy marker, independent of its kind.
pub proof fn lemma_lazy_marker(t: Token)
    requires
        t.rule == Rule::Quantifier,
    ensures
        spec_create_ast_node(t) matches Result::Ok(n) ==> n matches NodeModel::Quantifier(q)
            && q.lazy == lazy_marked(t.children@[0].text@),
{
}

/// Law: every quantifier kind the builder yields is well formed: a range
/// keeps its bounds ordered.
pub proof fn lemma_quantifier_kind_wf(t: Token)
    ensures
        spec_quantifier_kind(t) matches Result::Ok(k) ==> quantifier_kind_wf(k),
{
}

/// Law: every node the dispatcher yields is well formed.
pub proof fn lemma_create_wf(t: Token)
    ensures
        spec_create_ast_node(t) matches Result::Ok(n) ==> node_wf(n),
{
    if t.rule == Rule::Quantifier && t.children@.len() > 0 && t.children@[0].children@.len()
        > 0 {
        lemma_quantifier_kind_wf(t.children@[0].children@[0]);
    }
}

// ========================
// ===== ROOT BUILDER =====
// ========================

/// What dispatching a token sequence yields: the nodes in source order, or
/// the first error in traversal order.
pub open spec fn spec_nodes(ts: Seq<Token>) -> Result<Seq<NodeModel>, CompilerError>
    decreases ts.len(),
{
    if ts.len() == 0 {
        Result::Ok(Seq::<NodeModel>::empty())
    } else {
        match spec_create_ast_node(ts[0]) {
            Result::Err(e) => Result::Err(e),
            Result::Ok(node) => match spec_nodes(ts.drop_first()) {
                Result::Err(e) => Result::Err(e),
                Result::Ok(rest) => Result::Ok(seq![node] + rest),
            },
        }
    }
}

/// What converting a set of top-level tokens yields: always a `Root`
/// program on success, never `Empty`.
pub open spec fn spec_pairs_to_ast(ts: Seq<Token>) -> Result<AstModel, CompilerError> {
    match spec_nodes(ts) {
        Result::Ok(nodes) => Result::Ok(AstModel::Root(nodes)),
        Result::Err(e) => Result::Err(e),
    }
}

/// Law: dispatching a token sequence succeeds exactly when every token
/// does; on success it yields one node per token, in source order; on
/// failure it yields the first error in traversal order.
pub proof fn lemma_nodes_shape(ts: Seq<Token>)
    ensures
        spec_nodes(ts) is Ok <==> (forall|i: int|
            0 <= i < ts.len() ==> (#[trigger] spec_create_ast_node(ts[i])) is Ok),
        spec_nodes(ts) matches Ok(nodes) ==> nodes.len() == ts.len() && (forall|i: int|
            0 <= i < ts.len() ==> (#[trigger] spec_create_ast_node(ts[i])) == Result::<
                NodeModel,
                CompilerError,
            >::Ok(nodes[i])),
        spec_nodes(ts) matches Err(e) ==> (exists|i: int|
            0 <= i < ts.len() && (#[trigger] spec_create_ast_node(ts[i])) == Result::<
                NodeModel,
                CompilerError,
            >::Err(e) && (forall|j: int|
                0 <= j < i ==> spec_create_ast_node(ts[j]) is Ok)),
    decreases ts.len(),
{
    if ts.len() > 0 {
        lemma_nodes_shape(ts.drop_first());
        assert(forall|i: int|
            1 <= i < ts.len() ==> ts.drop_first()[i - 1] == #[trigger] ts[i]);
        match spec_create_ast_node(ts[0]) {
            Result::Err(e) => {
                assert(0 <= 0 < ts.len() && spec_create_ast_node(ts[0]) == Result::<
                    NodeModel,
                    CompilerError,
                >::Err(e) && (forall|j: int| 0 <= j < 0 ==> spec_create_ast_node(ts[j]) is Ok));
            },
            Result::Ok(node) => {
                match spec_nodes(ts.drop_first()) {
                    Result::Ok(rest) => {
                        let nodes = seq![node] + rest;
                        assert(nodes.len() == ts.len());
                        assert(forall|i: int|
                            1 <= i < ts.len() ==> (#[trigger] spec_create_ast_node(ts[i]))
                                == Result::<NodeModel, CompilerError>::Ok(rest[i - 1]));
                        assert(forall|i: int| 0 <= i < ts.len() ==> nodes[i] == (if i == 0 {
                            node
                        } else {
                            rest[i - 1]
                        }));
                    },
                    Result::Err(e) => {
                        let k = choose|i: int|
                            0 <= i < ts.drop_first().len() && (#[trigger] spec_create_ast_node(
                                ts.drop_first()[i],
                            )) == Result::<NodeModel, CompilerError>::Err(e) && (forall|j: int|
                                0 <= j < i ==> spec_create_ast_node(ts.drop_first()[j]) is Ok);
                        assert(0 <= k + 1 < ts.len() && spec_create_ast_node(ts[k + 1])
                            == Result::<NodeModel, CompilerError>::Err(e) && (forall|j: int|
                            0 <= j < k + 1 ==> spec_create_ast_node(ts[j]) is Ok));
                    },
                }
            },
        }
    }
}

/// Converts a set of top-level tokens into an AST.
pub fn pairs_to_ast(pairs: &Vec<Token>, env: &mut HashMap<String, AlaniAst>) -> (r: Result<
    AlaniAst,
    CompilerError,
>)
    requires
        forall|i: int| 0 <= i < pairs@.len() ==> token_wf(#[trigger] pairs@[i]),
    ensures
        ast_result_view(r) == spec_pairs_to_ast(pairs@),
        *final(env) == *old(env),
        r is Ok <==> (forall|i: int|
            0 <= i < pairs@.len() ==> (#[trigger] spec_create_ast_node(pairs@[i])) is Ok),
        r matches Result::Ok(ast) ==> (ast@ matches AstModel::Root(ns) && ns.len()
            == pairs@.len() && (forall|i: int|
            0 <= i < pairs@.len() ==> (#[trigger] spec_create_ast_node(pairs@[i])) == Result::<
                NodeModel,
                CompilerError,
            >::Ok(ns[i])) && ast_wf(ast@)),
{
    let mut nodes: Vec<AlaniAstNode> = Vec::new();
    let mut idx: usize = 0;
    proof {
        assert(pairs@.skip(0) =~= pairs@);
        assert(nodes_view(nodes@) =~= Seq::<NodeModel>::empty());
        assert(nodes_view(nodes@) + Seq::<NodeModel>::empty() =~= nodes_view(nodes@));
    }
    // Iterate through tokens and create AST nodes
    while idx < pairs.len()
        invariant
            0 <= idx <= pairs@.len(),
            forall|i: int| 0 <= i < pairs@.len() ==> token_wf(#[trigger] pairs@[i]),
            *env == *old(env),
            match spec_nodes(pairs@.skip(idx as int)) {
                Result::Ok(rest) => spec_nodes(pairs@) == Result::<
                    Seq<NodeModel>,
                    CompilerError,
                >::Ok(nodes_view(nodes@) + rest),
                Result::Err(e) => spec_nodes(pairs@) == Result::<
                    Seq<NodeModel>,
                    CompilerError,
                >::Err(e),
            },
        decreases pairs@.len() - idx,
    {
        let ghost rest0 = pairs@.skip(idx as int);
        proof {
            assert(rest0[0] == pairs@[idx as int]);
            assert(rest0.drop_first() =~= pairs@.skip(idx + 1));
        }
        let node = match create_ast_node(&pairs[idx], env) {
            Result::Ok(n) => n,
            Result::Err(e) => {
                proof {
                    lemma_nodes_shape(pairs@);
                }
                return Err(e);
            },
        };
        let ghost nodes_before = nodes@;
        nodes.push(node);
        proof {
            assert(nodes_view(nodes@) =~= nodes_view(nodes_before).push(node@));
            match spec_nodes(pairs@.skip(idx + 1)) {
                Result::Ok(rest) => {
                    assert(nodes_view(nodes_before) + (seq![node@] + rest) =~= nodes_view(nodes@)
                        + rest);
                },
                Result::Err(_) => {},
            }
        }
        idx += 1;
    }
    proof {
        assert(pairs@.skip(pairs@.len() as int) =~= Seq::<Token>::empty());
        assert(nodes_view(nodes@) + Seq::<NodeModel>::empty() =~= nodes_view(nodes@));
        lemma_nodes_shape(pairs@);
        assert forall|i: int| 0 <= i < nodes_view(nodes@).len() implies node_wf(
            #[trigger] nodes_view(nodes@)[i],
        ) by {
            assert(spec_create_ast_node(pairs@[i]) == Result::<NodeModel, CompilerError>::Ok(
                nodes_view(nodes@)[i],
            ));
            lemma_create_wf(pairs@[i]);
        }
    }
    Ok(AlaniAst::Root(nodes))
}

// ========================
// ===== ENTRY POINT ======
// ========================

/// The token the external tokenizer handed over, as a mathematical value.
pub open spec fn deref_root(root: Option<&Token>) -> Option<Token> {
    match root {
        Option::Some(t) => Option::Some(*t),
        Option::None => Option::None,
    }
}

/// What the top-level conversion yields: empty source is the empty program;
/// otherwise the tokenizer must have produced a root container, whose
/// children become the program in source order.
pub open spec fn spec_to_ast(source: Seq<char>, root: Option<Token>) -> Result<
    AstModel,
    CompilerError,
> {
    if source.len() == 0 {
        Result::Ok(AstModel::Empty)
    } else {
        match root {
            Option::None => Result::Err(CompilerError::MissingRootNode),
            Option::Some(t) => spec_pairs_to_ast(t.children@),
        }
    }
}

/// Converts a source file (as a string) together with the external
/// tokenizer's root token into an AST.  Empty input maps to `Empty` without
/// consulting the token tree; for non-empty input a missing root container
/// fails with `MissingRootNode`.
pub fn to_ast(source: &str, root: Option<&Token>) -> (r: Result<AlaniAst, CompilerError>)
    requires
        match root {
            Option::Some(t) => forall|i: int|
                0 <= i < t.children@.len() ==> token_wf(#[trigger] t.children@[i]),
            Option::None => true,
        },
    ensures
        ast_result_view(r) == spec_to_ast(source@, deref_root(root)),
        source@.len() == 0 ==> r == Result::<AlaniAst, CompilerError>::Ok(AlaniAst::Empty),
        r matches Result::Ok(ast) ==> ast_wf(ast@),
        source@.len() != 0 ==> (r matches Result::Ok(ast) ==> ast matches AlaniAst::Root(_)),
{
    if source.is_empty() {
        return Ok(AlaniAst::Empty);
    }

    let root_statements = match root {
        Option::Some(t) => t,
        Option::None => {
            return Err(CompilerError::MissingRootNode);
        },
    };

    // This hashmap is used as an environment for variables as we traverse the tokens
    let mut env: HashMap<String, AlaniAst> = HashMap::new();

    let r = pairs_to_ast(&root_statements.children, &mut env);
    proof {
        if r is Ok {
            assert(r->Ok_0@ matches AstModel::Root(_));
            assert(r->Ok_0 matches AlaniAst::Root(_));
        }
    }
    r
}

} // verus!

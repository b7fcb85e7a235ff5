use std::collections::HashMap;

use alani::ast::source_to_ast::{pairs_to_ast, to_ast};
use alani::ast::tokens::{Rule, Token};
use alani::ast::types::{
    AlaniAst, AlaniAstNode, Expression, Quantifier, QuantifierKind, Symbol, SymbolKind,
};
use alani::errors::CompilerError;

fn chars(s: &str) -> Vec<char> {
    s.chars().collect()
}

fn tok(rule: Rule, text: &str, children: Vec<Token>) -> Token {
    Token { rule, text: chars(text), children }
}

fn leaf(rule: Rule, text: &str) -> Token {
    tok(rule, text, Vec::new())
}

fn symbol(name: &str) -> Token {
    tok(Rule::Symbol, name, vec![leaf(Rule::Name, name)])
}

fn negated_symbol(name: &str) -> Token {
    tok(Rule::Symbol, name, vec![leaf(Rule::Marker, "not"), leaf(Rule::Name, name)])
}

fn quantifier(kind: Token, quantity_text: &str, operand: Token) -> Token {
    let quantity = tok(Rule::Quantity, quantity_text, vec![kind]);
    tok(Rule::Quantifier, "", vec![quantity, operand])
}

fn build(tokens: Vec<Token>) -> Result<AlaniAst, CompilerError> {
    let mut env: HashMap<String, AlaniAst> = HashMap::new();
    pairs_to_ast(&tokens, &mut env)
}

fn build_one(token: Token) -> Result<AlaniAstNode, CompilerError> {
    match build(vec![token]) {
        Ok(AlaniAst::Root(mut nodes)) => {
            assert_eq!(nodes.len(), 1);
            Ok(nodes.pop().unwrap())
        }
        Ok(AlaniAst::Empty) => panic!("root builder produced Empty"),
        Err(e) => Err(e),
    }
}

#[test]
fn empty_source_yields_empty() {
    assert_eq!(to_ast("", None), Ok(AlaniAst::Empty));
    let root = tok(Rule::Root, "", Vec::new());
    assert_eq!(to_ast("", Some(&root)), Ok(AlaniAst::Empty));
    assert_ne!(to_ast("", None), Ok(AlaniAst::Root(Vec::new())));
}

#[test]
fn missing_root_fails() {
    assert_eq!(to_ast("word;", None), Err(CompilerError::MissingRootNode));
}

#[test]
fn root_preserves_count_and_order() {
    let root = tok(
        Rule::Root,
        "<word> `a`",
        vec![symbol("word"), leaf(Rule::Raw, "`a`"), leaf(Rule::Eoi, "")],
    );
    let ast = to_ast("<word> `a`", Some(&root)).unwrap();
    match ast {
        AlaniAst::Root(nodes) => {
            assert_eq!(nodes.len(), 3);
            assert_eq!(
                nodes[0],
                AlaniAstNode::Symbol(Symbol { kind: SymbolKind::Word, negated: false })
            );
            assert_eq!(nodes[1], AlaniAstNode::Atom(chars("a")));
            assert_eq!(nodes[2], AlaniAstNode::Skip);
        }
        AlaniAst::Empty => panic!("expected a root program"),
    }
}

#[test]
fn empty_root_is_root_of_nothing() {
    let root = tok(Rule::Root, "x", Vec::new());
    assert_eq!(to_ast("x", Some(&root)), Ok(AlaniAst::Root(Vec::new())));
}

#[test]
fn negated_start_fails() {
    assert_eq!(
        build_one(negated_symbol("start")),
        Err(CompilerError::NegativeStartNotAllowed)
    );
}

#[test]
fn negated_end_fails() {
    assert_eq!(build_one(negated_symbol("end")), Err(CompilerError::NegativeEndNotAllowed));
}

#[test]
fn negated_anchor_fails_inside_quantifier() {
    let q = quantifier(leaf(Rule::QuantitySome, "some"), "some", negated_symbol("start"));
    assert_eq!(build_one(q), Err(CompilerError::NegativeStartNotAllowed));
    let q = quantifier(leaf(Rule::QuantitySome, "some"), "some", negated_symbol("end"));
    assert_eq!(build_one(q), Err(CompilerError::NegativeEndNotAllowed));
}

#[test]
fn bare_anchors_are_unrecognized() {
    assert_eq!(build_one(symbol("start")), Err(CompilerError::UnrecognizedSymbol));
    assert_eq!(build_one(symbol("end")), Err(CompilerError::UnrecognizedSymbol));
}

fn symbol_table() -> Vec<(&'static str, SymbolKind)> {
    vec![
        ("space", SymbolKind::Space),
        ("newline", SymbolKind::Newline),
        ("vertical", SymbolKind::Vertical),
        ("word", SymbolKind::Word),
        ("digit", SymbolKind::Digit),
        ("whitespace", SymbolKind::Whitespace),
        ("boundary", SymbolKind::Boundary),
        ("alphabetic", SymbolKind::Alphabetic),
        ("alphanumeric", SymbolKind::Alphanumeric),
        ("return", SymbolKind::Return),
        ("tab", SymbolKind::Tab),
        ("null", SymbolKind::Null),
        ("feed", SymbolKind::Feed),
        ("char", SymbolKind::Char),
        ("backspace", SymbolKind::Backspace),
    ]
}

#[test]
fn all_fifteen_symbols_round_trip() {
    for (name, kind) in symbol_table() {
        assert_eq!(
            build_one(symbol(name)),
            Ok(AlaniAstNode::Symbol(Symbol { kind, negated: false })),
            "symbol {name}"
        );
    }
}

#[test]
fn all_fifteen_symbols_round_trip_negated() {
    for (name, kind) in symbol_table() {
        assert_eq!(
            build_one(negated_symbol(name)),
            Ok(AlaniAstNode::Symbol(Symbol { kind, negated: true })),
            "negated symbol {name}"
        );
    }
}

#[test]
fn unknown_symbol_fails() {
    assert_eq!(build_one(symbol("letter")), Err(CompilerError::UnrecognizedSymbol));
    assert_eq!(build_one(negated_symbol("letter")), Err(CompilerError::UnrecognizedSymbol));
}

#[test]
fn symbol_without_children_is_missing_node() {
    assert_eq!(build_one(leaf(Rule::Symbol, "word")), Err(CompilerError::MissingNode));
}

#[test]
fn quantifier_over_atom() {
    let q = quantifier(leaf(Rule::QuantitySome, "some"), "some", leaf(Rule::Raw, "`a`"));
    assert_eq!(
        build_one(q),
        Ok(AlaniAstNode::Quantifier(Quantifier {
            kind: QuantifierKind::SomeOf,
            lazy: false,
            expression: Box::new(Expression::Atom(chars("a"))),
        }))
    );
}

#[test]
fn quantifier_over_symbol() {
    let q = quantifier(leaf(Rule::QuantityAny, "any"), "any", symbol("digit"));
    assert_eq!(
        build_one(q),
        Ok(AlaniAstNode::Quantifier(Quantifier {
            kind: QuantifierKind::AnyOf,
            lazy: false,
            expression: Box::new(Expression::Symbol(Symbol {
                kind: SymbolKind::Digit,
                negated: false,
            })),
        }))
    );
}

#[test]
fn quantifier_in_quantifier_fails() {
    let inner = quantifier(leaf(Rule::QuantitySome, "some"), "some", leaf(Rule::Raw, "`a`"));
    let outer = quantifier(leaf(Rule::QuantityAny, "any"), "any", inner);
    assert_eq!(build_one(outer), Err(CompilerError::UnexpectedQuantifierInQuantifier));
}

#[test]
fn skipped_node_in_quantifier_fails() {
    let q = quantifier(leaf(Rule::QuantitySome, "some"), "some", leaf(Rule::Eoi, ""));
    assert_eq!(build_one(q), Err(CompilerError::UnexpectedSkippedNodeInQuantifier));
}

#[test]
fn lazy_marker_sets_lazy() {
    let q = quantifier(leaf(Rule::QuantitySome, "some"), "?some", leaf(Rule::Raw, "`a`"));
    match build_one(q).unwrap() {
        AlaniAstNode::Quantifier(quant) => assert!(quant.lazy),
        other => panic!("expected a quantifier, got {other:?}"),
    }
}

#[test]
fn absent_lazy_marker_clears_lazy() {
    let q = quantifier(leaf(Rule::QuantityOver, "4"), "over 4 of", leaf(Rule::Raw, "`a`"));
    match build_one(q).unwrap() {
        AlaniAstNode::Quantifier(quant) => {
            assert!(!quant.lazy);
            assert_eq!(quant.kind, QuantifierKind::Over(4));
        }
        other => panic!("expected a quantifier, got {other:?}"),
    }
}

#[test]
fn lazy_marker_is_independent_of_kind() {
    let q = quantifier(leaf(Rule::QuantityAmount, "5"), "?5 of", leaf(Rule::Raw, "`a`"));
    match build_one(q).unwrap() {
        AlaniAstNode::Quantifier(quant) => {
            assert!(quant.lazy);
            assert_eq!(quant.kind, QuantifierKind::Amount(5));
        }
        other => panic!("expected a quantifier, got {other:?}"),
    }
}

#[test]
fn quantifier_option_kind() {
    let q = quantifier(leaf(Rule::QuantityOption, "option"), "option", symbol("char"));
    match build_one(q).unwrap() {
        AlaniAstNode::Quantifier(quant) => assert_eq!(quant.kind, QuantifierKind::OptionOf),
        other => panic!("expected a quantifier, got {other:?}"),
    }
}

#[test]
fn quantifier_range_kind() {
    let kind = tok(
        Rule::QuantityRange,
        "1 to 3 of",
        vec![leaf(Rule::Number, "1"), leaf(Rule::Number, "3")],
    );
    let q = quantifier(kind, "1 to 3 of", leaf(Rule::Raw, "`a`"));
    match build_one(q).unwrap() {
        AlaniAstNode::Quantifier(quant) => {
            assert_eq!(quant.kind, QuantifierKind::Range { start: 1, end: 3 });
        }
        other => panic!("expected a quantifier, got {other:?}"),
    }
}

#[test]
fn quantifier_range_with_inverted_bounds_fails() {
    let kind = tok(
        Rule::QuantityRange,
        "3 to 1 of",
        vec![leaf(Rule::Number, "3"), leaf(Rule::Number, "1")],
    );
    let q = quantifier(kind, "3 to 1 of", leaf(Rule::Raw, "`a`"));
    assert_eq!(build_one(q), Err(CompilerError::MissingNode));
}

#[test]
fn quantifier_with_malformed_count_fails() {
    let q = quantifier(leaf(Rule::QuantityOver, "x4"), "over x4 of", leaf(Rule::Raw, "`a`"));
    assert_eq!(build_one(q), Err(CompilerError::MissingNode));
    let q = quantifier(
        leaf(Rule::QuantityAmount, "99999999999"),
        "99999999999 of",
        leaf(Rule::Raw, "`a`"),
    );
    assert_eq!(build_one(q), Err(CompilerError::MissingNode));
}

#[test]
fn quantifier_with_unknown_kind_tag_fails() {
    let q = quantifier(leaf(Rule::Name, "some"), "some", leaf(Rule::Raw, "`a`"));
    assert_eq!(build_one(q), Err(CompilerError::UnrecognizedSyntax));
}

#[test]
fn quantifier_without_children_fails() {
    assert_eq!(build_one(leaf(Rule::Quantifier, "")), Err(CompilerError::MissingNode));
}

#[test]
fn quantity_without_kind_child_fails() {
    let quantity = leaf(Rule::Quantity, "some");
    let q = tok(Rule::Quantifier, "", vec![quantity, leaf(Rule::Raw, "`a`")]);
    assert_eq!(build_one(q), Err(CompilerError::MissingNode));
}

#[test]
fn unimplemented_constructs_fail_loudly() {
    let unimplemented = vec![
        leaf(Rule::Range, "a to z"),
        leaf(Rule::Group, "capture { }"),
        leaf(Rule::Assertion, "ahead { }"),
        leaf(Rule::NegativeCharClass, "not abc"),
        leaf(Rule::VariableInvocation, ".x"),
        leaf(Rule::VariableDeclaration, "let .x = { }"),
    ];
    for token in unimplemented {
        assert_eq!(build_one(token), Err(CompilerError::UnrecognizedSyntax));
    }
}

#[test]
fn first_error_in_source_order_wins() {
    let result = build(vec![symbol("letter"), leaf(Rule::Range, "a to z")]);
    assert_eq!(result, Err(CompilerError::UnrecognizedSymbol));
    let result = build(vec![leaf(Rule::Raw, "`a`"), leaf(Rule::Range, "a to z")]);
    assert_eq!(result, Err(CompilerError::UnrecognizedSyntax));
}

#[test]
fn literal_atom_is_emitted_pre_escaped() {
    let root = tok(Rule::Root, "\"hi.\"", vec![leaf(Rule::Literal, "\"hi.\""), leaf(Rule::Eoi, "")]);
    let ast = to_ast("\"hi.\"", Some(&root)).unwrap();
    match ast {
        AlaniAst::Root(nodes) => {
            assert_eq!(nodes[0], AlaniAstNode::Atom(chars("hi\\.")));
        }
        AlaniAst::Empty => panic!("expected a root program"),
    }
}

#[test]
fn quantifier_over_literal_atom() {
    let q = quantifier(leaf(Rule::QuantitySome, "some"), "some", leaf(Rule::Literal, "\"a\""));
    assert_eq!(
        build_one(q),
        Ok(AlaniAstNode::Quantifier(Quantifier {
            kind: QuantifierKind::SomeOf,
            lazy: false,
            expression: Box::new(Expression::Atom(chars("a"))),
        }))
    );
}

#[test]
fn environment_is_left_unchanged() {
    let mut env: HashMap<String, AlaniAst> = HashMap::new();
    env.insert("x".to_string(), AlaniAst::Empty);
    let tokens = vec![symbol("word"), leaf(Rule::Eoi, "")];
    let result = pairs_to_ast(&tokens, &mut env);
    assert!(result.is_ok());
    assert_eq!(env.len(), 1);
    assert_eq!(env.get("x"), Some(&AlaniAst::Empty));
}

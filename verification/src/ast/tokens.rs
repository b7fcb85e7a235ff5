use vstd::prelude::*;

verus! {

/// The rule tags the external tokenizer can attach to a token.
///
/// The AST builder dispatches on `Raw`, `Literal`, `Symbol`, `Quantifier`
/// and `Eoi`; the `Range` through `VariableDeclaration` constructs are
/// recognized surface syntax with no AST representation yet and must fail
/// loudly.  The remaining tags label sub-tokens (the quantity descriptor and
/// its kinds, numbers, the negation marker, a symbol name) whose tag the
/// builder never inspects except for the quantity kind.
#[derive(Debug, Clone, Copy, PartialEq, Eq, Structural)]
pub enum Rule {
    Root,
    Raw,
    Literal,
    Symbol,
    Quantifier,
    Eoi,
    Range,
    Group,
    Assertion,
    NegativeCharClass,
    VariableInvocation,
    VariableDeclaration,
    Quantity,
    QuantitySome,
    QuantityAny,
    QuantityOption,
    QuantityOver,
    QuantityAmount,
    QuantityRange,
    Number,
    Marker,
    Name,
}

/// One node of the token tree handed over by the external tokenizer: a rule
/// tag, the matched text span (delimiters included), and the ordered child
/// tokens of a composite token.
#[derive(Debug)]
pub struct Token {
    pub rule: Rule,
    pub text: Vec<char>,
    pub children: Vec<Token>,
}

/// The token source is trusted to reject text that does not conform to the
/// surface grammar; this predicate records the little shape the builder
/// itself needs from a conforming token: text tokens keep both delimiters
/// (a raw span has at least the two backticks; a literal span at least the
/// two quotes, and opens with one), and a quantifier's operand conforms in
/// turn.
pub open spec fn token_wf(t: Token) -> bool
    decreases t,
{
    match t.rule {
        Rule::Raw => t.text@.len() >= 2,
        Rule::Literal => t.text@.len() >= 2 && (t.text@[0] == '"' || t.text@[0] == '\''),
        Rule::Quantifier => t.children@.len() == 0 || token_wf(t.children@.last()),
        _ => true,
    }
}

} // verus!

//! Building each type of the abstract syntax tree from the syntax node that
//! stands for it.
//!
//! For every type, `built` says what the node yields: the value's model, or
//! the first error met when the node is read from left to right. `parse_from`
//! computes exactly that.
use crate::errors::{BugKind, BuildError, SyntaxErrorKind};
use crate::parser::{
    built_node, built_nodes, lemma_tree_view, parse, parse_one, Assignment, BinaryExpr,
    BinaryExprTerm, Break, Call, Catch, Class, ConditionExprTerm, ConditionalExpr,
    ConditionalOperator, Declaration, Else, Expr, Function, FunctionMod, Ident, IfBlock, IfCase,
    IfNode, Import, Index, IndexExpr, Loop, MathOperator, Module, Node, Number, Return,
    SpecAssignment, SpecBinaryExprTerm, SpecCall, SpecClass, SpecConditionExprTerm, SpecDeclaration,
    SpecExpr, SpecFunction, SpecIfCase, SpecIfNode, SpecIndex, SpecIndexExpr, SpecNode, SpecTerm,
    SpecTryCatch, SpecType, SpecVariable, Term, Throw, Tree, Try, TryCatch, Type, Variable,
    VariableMod,
};
use crate::syntax::{lemma_pair_view, Position, Rule, SpecPair, SyntaxPair};
use crate::utils::{declared_names, is_unique, magnitude, parse_magnitude, trimmed_end, unquoted};
use vstd::prelude::*;
use vstd::string::StringExecFns;

verus! {

/// The outcome of a build with the value replaced by its model.
pub open spec fn modeled<T: DeepView>(outcome: Result<T, BuildError>) -> Result<T::V, BuildError> {
    match outcome {
        Ok(value) => Ok(value.deep_view()),
        Err(error) => Err(error),
    }
}

/// A type of the abstract syntax tree that can be built from a syntax node.
pub trait Parse: Sized + DeepView {
    /// What `pair` yields: the model of the value built from it, or the first
    /// error met.
    spec fn built(pair: SpecPair) -> Result<Self::V, BuildError>;

    /// Builds the value that `pair` stands for.
    fn parse_from(pair: &SyntaxPair) -> (outcome: Result<Self, BuildError>)
        ensures
            modeled(outcome) == Self::built(pair.deep_view()),
    ;
}

/// The defect reported when `pair` lacks a child that its production has.
pub open spec fn missing_child(pair: SpecPair) -> BuildError {
    BuildError::Bug { code: BugKind::MissingChild, rule: pair.rule }
}

/// The child of `pair` at `index`.
pub fn child(pair: &SyntaxPair, index: usize) -> (outcome: Result<&SyntaxPair, BuildError>)
    ensures
        pair.deep_view().children.len() == pair.children.len(),
        match outcome {
            Ok(found) => {
                &&& index < pair.children.len()
                &&& *found == pair.children[index as int]
                &&& found.deep_view() == pair.deep_view().children[index as int]
                &&& found.deep_view().rule == found.rule
                &&& found.deep_view().text == found.text@
                &&& found.deep_view().position == found.position
                &&& found.deep_view().children.len() == found.children.len()
            },
            Err(error) => index >= pair.children.len() && error == missing_child(
                pair.deep_view(),
            ),
        },
{
    proof {
        lemma_pair_view(*pair);
    }
    if index < pair.children.len() {
        proof {
            lemma_pair_view(pair.children[index as int]);
        }
        Ok(&pair.children[index])
    } else {
        Err(BuildError::Bug { code: BugKind::MissingChild, rule: pair.rule })
    }
}

impl Parse for Ident {
    open spec fn built(pair: SpecPair) -> Result<Seq<char>, BuildError> {
        Ok(pair.text)
    }

    fn parse_from(pair: &SyntaxPair) -> (outcome: Result<Self, BuildError>) {
        proof {
            lemma_pair_view(*pair);
        }
        Ok(Ident(pair.text.clone()))
    }
}

/// The type that the type node `pair` writes.
pub open spec fn built_type(pair: SpecPair) -> Result<SpecType, BuildError> {
    if pair.children.len() < 1 {
        Err(missing_child(pair))
    } else {
        Ok(SpecType { ident: pair.children[0].text, is_array: pair.children.len() >= 2 })
    }
}

impl Parse for Declaration {
    /// A declaration node holds a name and, optionally, a type node; a type
    /// node holds a name and, for an array type, a marker after it.
    open spec fn built(pair: SpecPair) -> Result<SpecDeclaration, BuildError> {
        if pair.children.len() < 1 {
            Err(missing_child(pair))
        } else if pair.children.len() < 2 {
            Ok(SpecDeclaration { ident: pair.children[0].text, ty: None })
        } else {
            match built_type(pair.children[1]) {
                Ok(ty) => Ok(SpecDeclaration { ident: pair.children[0].text, ty: Some(ty) }),
                Err(error) => Err(error),
            }
        }
    }

    fn parse_from(pair: &SyntaxPair) -> (outcome: Result<Self, BuildError>) {
        let ident = match child(pair, 0) {
            Ok(name) => Ident(name.text.clone()),
            Err(error) => return Err(error),
        };
        let type_pair = match child(pair, 1) {
            Ok(found) => found,
            Err(_) => return Ok(Declaration { ident, ty: None }),
        };
        let type_ident = match child(type_pair, 0) {
            Ok(name) => Ident(name.text.clone()),
            Err(error) => return Err(error),
        };
        let is_array = type_pair.children.len() >= 2;
        Ok(Declaration { ident, ty: Some(Type { ident: type_ident, is_array }) })
    }
}

/// The number with magnitude `magnitude` and the given sign.
pub open spec fn signed(negative: bool, magnitude: Number) -> Number {
    if negative {
        (0 - magnitude) as Number
    } else {
        magnitude
    }
}

/// The number that the number node `pair` writes.
///
/// The node holds the digits, or a sign and the digits. The sign is applied
/// here, so that the tree holds one signed number and no unary operator.
pub open spec fn built_number(pair: SpecPair) -> Result<Number, BuildError> {
    let has_sign = pair.children.len() == 2;
    if pair.children.len() < 1 {
        Err(missing_child(pair))
    } else if has_sign && pair.children[0].rule != Rule::Add && pair.children[0].rule
        != Rule::Subtract {
        Err(BuildError::Bug { code: BugKind::InvalidSign, rule: pair.children[0].rule })
    } else {
        let digits = if has_sign {
            pair.children[1]
        } else {
            pair.children[0]
        };
        match magnitude(digits.text) {
            Some(value) => Ok(signed(has_sign && pair.children[0].rule == Rule::Subtract, value)),
            None => Err(
                BuildError::Syntax {
                    kind: SyntaxErrorKind::MalformedLiteral,
                    position: digits.position,
                },
            ),
        }
    }
}

/// The term that a string literal yields, given what unquoting made of it.
pub open spec fn string_term(unquoted: Option<Seq<char>>, position: Position) -> Result<
    SpecTerm,
    BuildError,
> {
    match unquoted {
        Some(text) => Ok(SpecTerm::String(text)),
        None => Err(BuildError::Syntax { kind: SyntaxErrorKind::MalformedLiteral, position }),
    }
}

impl Term {
    /// Builds a string term from the outcome of unquoting the literal that
    /// starts at `position`.
    pub fn from_unquoted(outcome: Result<String, enquote::Error>, position: Position) -> (term:
        Result<Term, BuildError>)
        ensures
            modeled(term) == string_term(
                match outcome {
                    Ok(text) => Some(text@),
                    Err(_) => None,
                },
                position,
            ),
    {
        match outcome {
            Ok(text) => Ok(Term::String(text)),
            Err(_) => Err(BuildError::Syntax { kind: SyntaxErrorKind::MalformedLiteral, position }),
        }
    }

    /// Builds the number that a number node writes.
    pub fn number_from(pair: &SyntaxPair) -> (outcome: Result<Number, BuildError>)
        ensures
            outcome == built_number(pair.deep_view()),
    {
        proof {
            lemma_pair_view(*pair);
        }
        let has_sign = pair.children.len() == 2;
        let first = match child(pair, 0) {
            Ok(found) => found,
            Err(error) => return Err(error),
        };
        let mut negative = false;
        if has_sign {
            proof {
                lemma_pair_view(*first);
            }
            match first.rule {
                Rule::Add => {},
                Rule::Subtract => {
                    negative = true;
                },
                _ => {
                    return Err(BuildError::Bug { code: BugKind::InvalidSign, rule: first.rule });
                },
            }
        }
        let digits = if has_sign {
            &pair.children[1]
        } else {
            first
        };
        proof {
            lemma_pair_view(*digits);
        }
        match parse_magnitude(digits.text.as_str()) {
            Some(value) => Ok(
                if negative {
                    -value
                } else {
                    value
                },
            ),
            None => Err(
                BuildError::Syntax {
                    kind: SyntaxErrorKind::MalformedLiteral,
                    position: digits.position,
                },
            ),
        }
    }
}

impl Parse for Term {
    /// A term is a string literal, a number or a name. Any other node, a
    /// parenthesised expression among them, has no form in the tree yet.
    open spec fn built(pair: SpecPair) -> Result<SpecTerm, BuildError> {
        match pair.rule {
            Rule::String => string_term(unquoted(pair.text), pair.position),
            Rule::Number => match built_number(pair) {
                Ok(value) => Ok(SpecTerm::Number(value)),
                Err(error) => Err(error),
            },
            Rule::Ident => Ok(SpecTerm::Ident(pair.text)),
            rule => Err(BuildError::Bug { code: BugKind::UnsupportedTerm, rule }),
        }
    }

    fn parse_from(pair: &SyntaxPair) -> (outcome: Result<Self, BuildError>) {
        proof {
            lemma_pair_view(*pair);
        }
        match pair.rule {
            Rule::String => Term::from_unquoted(
                enquote::unquote(pair.text.as_str()),
                pair.position,
            ),
            Rule::Number => match Term::number_from(pair) {
                Ok(value) => Ok(Term::Number(value)),
                Err(error) => Err(error),
            },
            Rule::Ident => Ok(Term::Ident(Ident(pair.text.clone()))),
            rule => Err(BuildError::Bug { code: BugKind::UnsupportedTerm, rule }),
        }
    }
}

impl Parse for Module {
    open spec fn built(pair: SpecPair) -> Result<Seq<char>, BuildError> {
        if pair.children.len() < 1 {
            Err(missing_child(pair))
        } else {
            Ok(pair.children[0].text)
        }
    }

    fn parse_from(pair: &SyntaxPair) -> (outcome: Result<Self, BuildError>) {
        match child(pair, 0) {
            Ok(name) => {
                Ok(Module { ident: Ident(name.text.clone()) })
            },
            Err(error) => Err(error),
        }
    }
}

impl Parse for Import {
    open spec fn built(pair: SpecPair) -> Result<SpecTerm, BuildError> {
        if pair.children.len() < 1 {
            Err(missing_child(pair))
        } else {
            Term::built(pair.children[0])
        }
    }

    fn parse_from(pair: &SyntaxPair) -> (outcome: Result<Self, BuildError>) {
        match child(pair, 0) {
            Ok(target) => match Term::parse_from(target) {
                Ok(path) => Ok(Import { path }),
                Err(error) => Err(error),
            },
            Err(error) => Err(error),
        }
    }
}

/// The arithmetic operator that the operator node `pair` holds.
pub open spec fn built_math_operator(pair: SpecPair) -> Result<MathOperator, BuildError> {
    if pair.children.len() < 1 {
        Err(missing_child(pair))
    } else {
        match pair.children[0].rule {
            Rule::Add => Ok(MathOperator::Add),
            Rule::Subtract => Ok(MathOperator::Subtract),
            Rule::Multiply => Ok(MathOperator::Multiply),
            Rule::Divide => Ok(MathOperator::Divide),
            Rule::XOR => Ok(MathOperator::XOR),
            _ => Err(BuildError::Bug { code: BugKind::UnknownOperator, rule: pair.rule }),
        }
    }
}

/// The chain that the nodes from `from` on write: operands alternate with
/// operators, and each operand takes the operator that follows it.
pub open spec fn built_math_chain(pairs: Seq<SpecPair>, from: int) -> Result<
    Seq<SpecBinaryExprTerm>,
    BuildError,
>
    decreases pairs.len() - from,
{
    if from < 0 || from >= pairs.len() {
        Ok(Seq::empty())
    } else {
        match Term::built(pairs[from]) {
            Err(error) => Err(error),
            Ok(operand) => if from + 1 >= pairs.len() {
                Ok(seq![SpecBinaryExprTerm { operand, operator: None }])
            } else {
                match built_math_operator(pairs[from + 1]) {
                    Err(error) => Err(error),
                    Ok(operator) => match built_math_chain(pairs, from + 2) {
                        Err(error) => Err(error),
                        Ok(rest) => Ok(
                            seq![SpecBinaryExprTerm { operand, operator: Some(operator) }] + rest,
                        ),
                    },
                }
            },
        }
    }
}

impl MathOperator {
    /// Reads the operator that an operator node holds.
    pub fn operator_from(pair: &SyntaxPair) -> (outcome: Result<MathOperator, BuildError>)
        ensures
            outcome == built_math_operator(pair.deep_view()),
    {
        proof {
            lemma_pair_view(*pair);
        }
        match child(pair, 0) {
            Err(error) => Err(error),
            Ok(inner) => match inner.rule {
                Rule::Add => Ok(MathOperator::Add),
                Rule::Subtract => Ok(MathOperator::Subtract),
                Rule::Multiply => Ok(MathOperator::Multiply),
                Rule::Divide => Ok(MathOperator::Divide),
                Rule::XOR => Ok(MathOperator::XOR),
                _ => Err(BuildError::Bug { code: BugKind::UnknownOperator, rule: pair.rule }),
            },
        }
    }
}

impl Parse for BinaryExpr {
    /// The children are an operand, then operator and operand in turn. A
    /// chain has at least its first operand.
    open spec fn built(pair: SpecPair) -> Result<Seq<SpecBinaryExprTerm>, BuildError> {
        if pair.children.len() < 1 {
            Err(missing_child(pair))
        } else {
            built_math_chain(pair.children, 0)
        }
    }

    fn parse_from(pair: &SyntaxPair) -> (outcome: Result<Self, BuildError>) {
        let ghost pairs = pair.deep_view().children;
        let count: usize = pair.children.len();
        if count < 1 {
            proof {
                lemma_pair_view(*pair);
            }
            return Err(BuildError::Bug { code: BugKind::MissingChild, rule: pair.rule });
        }
        let mut terms: Vec<BinaryExprTerm> = Vec::new();
        let mut i: usize = 0;
        proof {
            lemma_pair_view(*pair);
            assert(terms.deep_view() =~= Seq::empty());
            match built_math_chain(pairs, 0) {
                Ok(rest) => assert(terms.deep_view() + rest =~= rest),
                Err(_) => {},
            }
        }
        while i < count
            invariant
                count == pair.children.len(),
                pairs == pair.deep_view().children,
                pairs.len() == count,
                built_math_chain(pairs, 0) == match built_math_chain(pairs, i as int) {
                    Ok(rest) => Ok::<Seq<SpecBinaryExprTerm>, BuildError>(terms.deep_view() + rest),
                    Err(error) => Err(error),
                },
            decreases count + 2 - i,
        {
            let operand = match child(pair, i) {
                Ok(found) => match Term::parse_from(found) {
                    Ok(term) => term,
                    Err(error) => return Err(error),
                },
                Err(error) => return Err(error),
            };
            let ghost before = terms.deep_view();
            if i + 1 >= count {
                let term = BinaryExprTerm { operand, operator: None };
                terms.push(term);
                proof {
                    assert(terms.deep_view() =~= before + seq![term.deep_view()]);
                }
                return Ok(BinaryExpr { terms });
            }
            let operator = match child(pair, i + 1) {
                Ok(found) => match MathOperator::operator_from(found) {
                    Ok(operator) => operator,
                    Err(error) => return Err(error),
                },
                Err(error) => return Err(error),
            };
            let term = BinaryExprTerm { operand, operator: Some(operator) };
            terms.push(term);
            proof {
                assert(terms.deep_view() =~= before + seq![term.deep_view()]);
                match built_math_chain(pairs, i + 2) {
                    Ok(rest) => assert(before + (seq![term.deep_view()] + rest)
                        =~= terms.deep_view() + rest),
                    Err(_) => {},
                }
            }
            i += 2;
        }
        proof {
            assert(terms.deep_view() + Seq::<SpecBinaryExprTerm>::empty() =~= terms.deep_view());
        }
        Ok(BinaryExpr { terms })
    }
}

/// The comparison that the operator node `pair` holds.
pub open spec fn built_condition_operator(pair: SpecPair) -> Result<
    ConditionalOperator,
    BuildError,
> {
    if pair.children.len() < 1 {
        Err(missing_child(pair))
    } else {
        match pair.children[0].rule {
            Rule::Equality => Ok(ConditionalOperator::Equality),
            Rule::Inequality => Ok(ConditionalOperator::AntiEquality),
            rule => Err(BuildError::Bug { code: BugKind::UnknownCondOperator, rule }),
        }
    }
}

/// The comparison chain that the nodes from `from` on write, in the same
/// shape as an arithmetic chain.
pub open spec fn built_condition_chain(pairs: Seq<SpecPair>, from: int) -> Result<
    Seq<SpecConditionExprTerm>,
    BuildError,
>
    decreases pairs.len() - from,
{
    if from < 0 || from >= pairs.len() {
        Ok(Seq::empty())
    } else {
        match Term::built(pairs[from]) {
            Err(error) => Err(error),
            Ok(operand) => if from + 1 >= pairs.len() {
                Ok(seq![SpecConditionExprTerm { operand, operator: None }])
            } else {
                match built_condition_operator(pairs[from + 1]) {
                    Err(error) => Err(error),
                    Ok(operator) => match built_condition_chain(pairs, from + 2) {
                        Err(error) => Err(error),
                        Ok(rest) => Ok(
                            seq![SpecConditionExprTerm { operand, operator: Some(operator) }]
                                + rest,
                        ),
                    },
                }
            },
        }
    }
}

impl ConditionalOperator {
    /// Reads the comparison that an operator node holds.
    pub fn operator_from(pair: &SyntaxPair) -> (outcome: Result<ConditionalOperator, BuildError>)
        ensures
            outcome == built_condition_operator(pair.deep_view()),
    {
        proof {
            lemma_pair_view(*pair);
        }
        match child(pair, 0) {
            Err(error) => Err(error),
            Ok(inner) => match inner.rule {
                Rule::Equality => Ok(ConditionalOperator::Equality),
                Rule::Inequality => Ok(ConditionalOperator::AntiEquality),
                rule => Err(BuildError::Bug { code: BugKind::UnknownCondOperator, rule }),
            },
        }
    }
}

impl Parse for ConditionalExpr {
    open spec fn built(pair: SpecPair) -> Result<Seq<SpecConditionExprTerm>, BuildError> {
        if pair.children.len() < 1 {
            Err(missing_child(pair))
        } else {
            built_condition_chain(pair.children, 0)
        }
    }

    fn parse_from(pair: &SyntaxPair) -> (outcome: Result<Self, BuildError>) {
        let ghost pairs = pair.deep_view().children;
        let count: usize = pair.children.len();
        if count < 1 {
            proof {
                lemma_pair_view(*pair);
            }
            return Err(BuildError::Bug { code: BugKind::MissingChild, rule: pair.rule });
        }
        let mut terms: Vec<ConditionExprTerm> = Vec::new();
        let mut i: usize = 0;
        proof {
            lemma_pair_view(*pair);
            assert(terms.deep_view() =~= Seq::empty());
            match built_condition_chain(pairs, 0) {
                Ok(rest) => assert(terms.deep_view() + rest =~= rest),
                Err(_) => {},
            }
        }
        while i < count
            invariant
                count == pair.children.len(),
                pairs == pair.deep_view().children,
                pairs.len() == count,
                built_condition_chain(pairs, 0) == match built_condition_chain(pairs, i as int) {
                    Ok(rest) => Ok::<Seq<SpecConditionExprTerm>, BuildError>(
                        terms.deep_view() + rest,
                    ),
                    Err(error) => Err(error),
                },
            decreases count + 2 - i,
        {
            let operand = match child(pair, i) {
                Ok(found) => match Term::parse_from(found) {
                    Ok(term) => term,
                    Err(error) => return Err(error),
                },
                Err(error) => return Err(error),
            };
            let ghost before = terms.deep_view();
            if i + 1 >= count {
                let term = ConditionExprTerm { operand, operator: None };
                terms.push(term);
                proof {
                    assert(terms.deep_view() =~= before + seq![term.deep_view()]);
                }
                return Ok(ConditionalExpr { terms });
            }
            let operator = match child(pair, i + 1) {
                Ok(found) => match ConditionalOperator::operator_from(found) {
                    Ok(operator) => operator,
                    Err(error) => return Err(error),
                },
                Err(error) => return Err(error),
            };
            let term = ConditionExprTerm { operand, operator: Some(operator) };
            terms.push(term);
            proof {
                assert(terms.deep_view() =~= before + seq![term.deep_view()]);
                match built_condition_chain(pairs, i + 2) {
                    Ok(rest) => assert(before + (seq![term.deep_view()] + rest)
                        =~= terms.deep_view() + rest),
                    Err(_) => {},
                }
            }
            i += 2;
        }
        proof {
            assert(terms.deep_view() + Seq::<SpecConditionExprTerm>::empty() =~= terms.deep_view());
        }
        Ok(ConditionalExpr { terms })
    }
}

impl Parse for IndexExpr {
    /// The children are the indexed term and the index, which is a number or
    /// a string.
    open spec fn built(pair: SpecPair) -> Result<SpecIndexExpr, BuildError> {
        if pair.children.len() < 1 {
            Err(missing_child(pair))
        } else {
            match Term::built(pair.children[0]) {
                Err(error) => Err(error),
                Ok(term) => if pair.children.len() < 2 {
                    Err(missing_child(pair))
                } else {
                    match Term::built(pair.children[1]) {
                        Err(error) => Err(error),
                        Ok(SpecTerm::Number(value)) => Ok(
                            SpecIndexExpr { term, index: SpecIndex::Number(value) },
                        ),
                        Ok(SpecTerm::String(text)) => Ok(
                            SpecIndexExpr { term, index: SpecIndex::String(text) },
                        ),
                        Ok(SpecTerm::Ident(_)) => Err(
                            BuildError::Bug {
                                code: BugKind::InvalidIndexTerm,
                                rule: pair.children[1].rule,
                            },
                        ),
                    }
                },
            }
        }
    }

    fn parse_from(pair: &SyntaxPair) -> (outcome: Result<Self, BuildError>) {
        let term = match child(pair, 0) {
            Ok(found) => match Term::parse_from(found) {
                Ok(term) => term,
                Err(error) => return Err(error),
            },
            Err(error) => return Err(error),
        };
        let index_pair = match child(pair, 1) {
            Ok(found) => found,
            Err(error) => return Err(error),
        };
        match Term::parse_from(index_pair) {
            Err(error) => Err(error),
            Ok(Term::Number(value)) => Ok(IndexExpr { term, index: Index::Number(value) }),
            Ok(Term::String(text)) => Ok(IndexExpr { term, index: Index::String(text) }),
            Ok(Term::Ident(_)) => Err(
                BuildError::Bug { code: BugKind::InvalidIndexTerm, rule: index_pair.rule },
            ),
        }
    }
}

/// The terms that the argument nodes from `from` on hold, one each.
pub open spec fn built_arguments(pairs: Seq<SpecPair>, from: int) -> Result<
    Seq<SpecTerm>,
    BuildError,
>
    decreases pairs.len() - from,
{
    if from < 0 || from >= pairs.len() {
        Ok(Seq::empty())
    } else if pairs[from].children.len() < 1 {
        Err(missing_child(pairs[from]))
    } else {
        match Term::built(pairs[from].children[0]) {
            Err(error) => Err(error),
            Ok(term) => match built_arguments(pairs, from + 1) {
                Err(error) => Err(error),
                Ok(rest) => Ok(seq![term] + rest),
            },
        }
    }
}

impl Call {
    /// Builds the terms under an argument list.
    pub fn arguments_from(list: &SyntaxPair) -> (outcome: Result<Vec<Term>, BuildError>)
        ensures
            modeled(outcome) == built_arguments(list.deep_view().children, 0),
    {
        let ghost pairs = list.deep_view().children;
        let mut args: Vec<Term> = Vec::new();
        let mut i: usize = 0;
        proof {
            lemma_pair_view(*list);
            assert(args.deep_view() =~= Seq::empty());
            match built_arguments(pairs, 0) {
                Ok(rest) => assert(args.deep_view() + rest =~= rest),
                Err(_) => {},
            }
        }
        while i < list.children.len()
            invariant
                pairs == list.deep_view().children,
                pairs.len() == list.children.len(),
                built_arguments(pairs, 0) == match built_arguments(pairs, i as int) {
                    Ok(rest) => Ok::<Seq<SpecTerm>, BuildError>(args.deep_view() + rest),
                    Err(error) => Err(error),
                },
            decreases list.children.len() - i,
        {
            let wrapped = match child(list, i) {
                Ok(found) => found,
                Err(error) => return Err(error),
            };
            let term = match child(wrapped, 0) {
                Ok(found) => match Term::parse_from(found) {
                    Ok(term) => term,
                    Err(error) => return Err(error),
                },
                Err(error) => return Err(error),
            };
            let ghost before = args.deep_view();
            let ghost model = term.deep_view();
            args.push(term);
            proof {
                assert(args.deep_view() =~= before + seq![model]);
                match built_arguments(pairs, i + 1) {
                    Ok(rest) => assert(before + (seq![model] + rest) =~= args.deep_view() + rest),
                    Err(_) => {},
                }
            }
            i += 1;
        }
        proof {
            assert(args.deep_view() + Seq::<SpecTerm>::empty() =~= args.deep_view());
        }
        Ok(args)
    }
}

impl Parse for Call {
    /// The children are the callee's name and the argument list, whose
    /// children each wrap one term.
    open spec fn built(pair: SpecPair) -> Result<SpecCall, BuildError> {
        if pair.children.len() < 2 {
            Err(missing_child(pair))
        } else {
            match built_arguments(pair.children[1].children, 0) {
                Err(error) => Err(error),
                Ok(args) => Ok(SpecCall { ident: pair.children[0].text, args }),
            }
        }
    }

    fn parse_from(pair: &SyntaxPair) -> (outcome: Result<Self, BuildError>) {
        let ident = match child(pair, 0) {
            Ok(name) => Ident(name.text.clone()),
            Err(error) => return Err(error),
        };
        let list = match child(pair, 1) {
            Ok(found) => found,
            Err(error) => return Err(error),
        };
        match Call::arguments_from(list) {
            Ok(args) => Ok(Call { ident, args }),
            Err(error) => Err(error),
        }
    }
}

/// The meaning of a function modifier, if `token` is one.
pub open spec fn function_mod(token: Seq<char>) -> Option<FunctionMod> {
    if token == "debug"@ {
        Some(FunctionMod::Debug)
    } else if token == "bar"@ {
        Some(FunctionMod::Public)
    } else {
        None
    }
}

/// The meaning of a variable modifier, if `token` is one.
pub open spec fn variable_mod(token: Seq<char>) -> Option<VariableMod> {
    if token == "bar"@ {
        Some(VariableMod::Public)
    } else {
        None
    }
}

/// The error for a modifier that the declaration does not know; it points
/// at the modifier itself.
pub open spec fn invalid_modifier(pair: SpecPair) -> BuildError {
    BuildError::Syntax { kind: SyntaxErrorKind::InvalidModifier, position: pair.position }
}

/// The modifiers that the nodes from `from` on write. The white space that
/// trails a modifier in the source is not part of it.
pub open spec fn built_function_mods(pairs: Seq<SpecPair>, from: int) -> Result<
    Seq<FunctionMod>,
    BuildError,
>
    decreases pairs.len() - from,
{
    if from < 0 || from >= pairs.len() {
        Ok(Seq::empty())
    } else {
        match function_mod(trimmed_end(pairs[from].text)) {
            None => Err(invalid_modifier(pairs[from])),
            Some(modifier) => match built_function_mods(pairs, from + 1) {
                Err(error) => Err(error),
                Ok(rest) => Ok(seq![modifier] + rest),
            },
        }
    }
}

/// As [`built_function_mods`], for the modifiers of a variable.
pub open spec fn built_variable_mods(pairs: Seq<SpecPair>, from: int) -> Result<
    Seq<VariableMod>,
    BuildError,
>
    decreases pairs.len() - from,
{
    if from < 0 || from >= pairs.len() {
        Ok(Seq::empty())
    } else {
        match variable_mod(trimmed_end(pairs[from].text)) {
            None => Err(invalid_modifier(pairs[from])),
            Some(modifier) => match built_variable_mods(pairs, from + 1) {
                Err(error) => Err(error),
                Ok(rest) => Ok(seq![modifier] + rest),
            },
        }
    }
}

impl FunctionMod {
    /// Resolves a modifier token that has no white space left at its end.
    pub fn from_token(token: &str) -> (modifier: Option<FunctionMod>)
        ensures
            modifier == function_mod(token@),
    {
        let token = String::from_str(token);
        if token == String::from_str("debug") {
            Some(FunctionMod::Debug)
        } else if token == String::from_str("bar") {
            Some(FunctionMod::Public)
        } else {
            None
        }
    }

    /// Resolves the modifiers under a modifier list.
    pub fn modifiers_from(list: &SyntaxPair) -> (outcome: Result<Vec<FunctionMod>, BuildError>)
        ensures
            match outcome {
                Ok(modifiers) => Ok(modifiers@),
                Err(error) => Err(error),
            } == built_function_mods(list.deep_view().children, 0),
    {
        let ghost pairs = list.deep_view().children;
        let mut modifiers: Vec<FunctionMod> = Vec::new();
        let mut i: usize = 0;
        proof {
            lemma_pair_view(*list);
            match built_function_mods(pairs, 0) {
                Ok(rest) => assert(modifiers@ + rest =~= rest),
                Err(_) => {},
            }
        }
        while i < list.children.len()
            invariant
                pairs == list.deep_view().children,
                pairs.len() == list.children.len(),
                built_function_mods(pairs, 0) == match built_function_mods(pairs, i as int) {
                    Ok(rest) => Ok::<Seq<FunctionMod>, BuildError>(modifiers@ + rest),
                    Err(error) => Err(error),
                },
            decreases list.children.len() - i,
        {
            let token = match child(list, i) {
                Ok(found) => found,
                Err(error) => return Err(error),
            };
            let modifier = match FunctionMod::from_token(token.text.as_str().trim_end()) {
                Some(modifier) => modifier,
                None => {
                    return Err(
                        BuildError::Syntax {
                            kind: SyntaxErrorKind::InvalidModifier,
                            position: token.position,
                        },
                    );
                },
            };
            let ghost before = modifiers@;
            modifiers.push(modifier);
            proof {
                match built_function_mods(pairs, i + 1) {
                    Ok(rest) => assert(before + (seq![modifier] + rest) =~= modifiers@ + rest),
                    Err(_) => {},
                }
            }
            i += 1;
        }
        proof {
            assert(modifiers@ + Seq::<FunctionMod>::empty() =~= modifiers@);
        }
        Ok(modifiers)
    }
}

impl VariableMod {
    /// Resolves a modifier token that has no white space left at its end.
    pub fn from_token(token: &str) -> (modifier: Option<VariableMod>)
        ensures
            modifier == variable_mod(token@),
    {
        let token = String::from_str(token);
        if token == String::from_str("bar") {
            Some(VariableMod::Public)
        } else {
            None
        }
    }

    /// Resolves the modifiers under a modifier list.
    pub fn modifiers_from(list: &SyntaxPair) -> (outcome: Result<Vec<VariableMod>, BuildError>)
        ensures
            match outcome {
                Ok(modifiers) => Ok(modifiers@),
                Err(error) => Err(error),
            } == built_variable_mods(list.deep_view().children, 0),
    {
        let ghost pairs = list.deep_view().children;
        let mut modifiers: Vec<VariableMod> = Vec::new();
        let mut i: usize = 0;
        proof {
            lemma_pair_view(*list);
            match built_variable_mods(pairs, 0) {
                Ok(rest) => assert(modifiers@ + rest =~= rest),
                Err(_) => {},
            }
        }
        while i < list.children.len()
            invariant
                pairs == list.deep_view().children,
                pairs.len() == list.children.len(),
                built_variable_mods(pairs, 0) == match built_variable_mods(pairs, i as int) {
                    Ok(rest) => Ok::<Seq<VariableMod>, BuildError>(modifiers@ + rest),
                    Err(error) => Err(error),
                },
            decreases list.children.len() - i,
        {
            let token = match child(list, i) {
                Ok(found) => found,
                Err(error) => return Err(error),
            };
            let modifier = match VariableMod::from_token(token.text.as_str().trim_end()) {
                Some(modifier) => modifier,
                None => {
                    return Err(
                        BuildError::Syntax {
                            kind: SyntaxErrorKind::InvalidModifier,
                            position: token.position,
                        },
                    );
                },
            };
            let ghost before = modifiers@;
            modifiers.push(modifier);
            proof {
                match built_variable_mods(pairs, i + 1) {
                    Ok(rest) => assert(before + (seq![modifier] + rest) =~= modifiers@ + rest),
                    Err(_) => {},
                }
            }
            i += 1;
        }
        proof {
            assert(modifiers@ + Seq::<VariableMod>::empty() =~= modifiers@);
        }
        Ok(modifiers)
    }
}

impl Parse for Break {
    open spec fn built(pair: SpecPair) -> Result<Break, BuildError> {
        Ok(Break)
    }

    fn parse_from(pair: &SyntaxPair) -> (outcome: Result<Self, BuildError>) {
        Ok(Break)
    }
}

impl Parse for Tree {
    /// A block yields its statements, one for each child that is one.
    open spec fn built(pair: SpecPair) -> Result<Seq<SpecNode>, BuildError>
        decreases pair, 0int, 0int,
    {
        built_nodes(pair.children, 0)
    }

    fn parse_from(pair: &SyntaxPair) -> (outcome: Result<Self, BuildError>)
        decreases pair, 0int, 0int,
    {
        proof {
            lemma_pair_view(*pair);
        }
        parse(&pair.children)
    }
}

impl Parse for Expr {
    /// Where a value is needed, the node is built as any node is. What comes
    /// out has to be an expression: a statement there is the user's error,
    /// reported at the node.
    open spec fn built(pair: SpecPair) -> Result<SpecExpr, BuildError>
        decreases pair, 2int, 0int,
    {
        match built_node(pair) {
            Err(error) => Err(error),
            Ok(Some(SpecNode::Expr(expr))) => Ok(expr),
            Ok(_) => Err(not_an_expression(pair)),
        }
    }

    fn parse_from(pair: &SyntaxPair) -> (outcome: Result<Self, BuildError>)
        decreases pair, 2int, 0int,
    {
        proof {
            lemma_pair_view(*pair);
        }
        match parse_one(pair) {
            Err(error) => Err(error),
            Ok(Some(Node::Expr(expr))) => Ok(expr),
            Ok(_) => Err(
                BuildError::Syntax {
                    kind: SyntaxErrorKind::NotAnExpression,
                    position: pair.position,
                },
            ),
        }
    }
}

/// The error for a statement that stands where a value is needed.
pub open spec fn not_an_expression(pair: SpecPair) -> BuildError {
    BuildError::Syntax { kind: SyntaxErrorKind::NotAnExpression, position: pair.position }
}

impl Parse for Throw {
    open spec fn built(pair: SpecPair) -> Result<SpecExpr, BuildError>
        decreases pair, 0int, 0int,
    {
        if pair.children.len() < 1 {
            Err(missing_child(pair))
        } else {
            Expr::built(pair.children[0])
        }
    }

    fn parse_from(pair: &SyntaxPair) -> (outcome: Result<Self, BuildError>)
        decreases pair, 0int, 0int,
    {
        match child(pair, 0) {
            Err(error) => Err(error),
            Ok(found) => match Expr::parse_from(found) {
                Ok(value) => Ok(Throw { value }),
                Err(error) => Err(error),
            },
        }
    }
}

impl Parse for Return {
    open spec fn built(pair: SpecPair) -> Result<SpecExpr, BuildError>
        decreases pair, 0int, 0int,
    {
        if pair.children.len() < 1 {
            Err(missing_child(pair))
        } else {
            Expr::built(pair.children[0])
        }
    }

    fn parse_from(pair: &SyntaxPair) -> (outcome: Result<Self, BuildError>)
        decreases pair, 0int, 0int,
    {
        match child(pair, 0) {
            Err(error) => Err(error),
            Ok(found) => match Expr::parse_from(found) {
                Ok(value) => Ok(Return { value }),
                Err(error) => Err(error),
            },
        }
    }
}

impl Parse for Assignment {
    /// The children are the name and the new value.
    open spec fn built(pair: SpecPair) -> Result<SpecAssignment, BuildError>
        decreases pair, 0int, 0int,
    {
        if pair.children.len() < 2 {
            Err(missing_child(pair))
        } else {
            match Expr::built(pair.children[1]) {
                Err(error) => Err(error),
                Ok(value) => Ok(SpecAssignment { ident: pair.children[0].text, value }),
            }
        }
    }

    fn parse_from(pair: &SyntaxPair) -> (outcome: Result<Self, BuildError>)
        decreases pair, 0int, 0int,
    {
        let ident = match child(pair, 0) {
            Ok(name) => Ident(name.text.clone()),
            Err(error) => return Err(error),
        };
        match child(pair, 1) {
            Err(error) => Err(error),
            Ok(found) => match Expr::parse_from(found) {
                Ok(value) => Ok(Assignment { ident, value }),
                Err(error) => Err(error),
            },
        }
    }
}

impl Parse for Loop {
    /// The only child is the body.
    open spec fn built(pair: SpecPair) -> Result<Seq<SpecNode>, BuildError>
        decreases pair, 0int, 0int,
    {
        if pair.children.len() < 1 {
            Err(missing_child(pair))
        } else {
            Tree::built(pair.children[0])
        }
    }

    fn parse_from(pair: &SyntaxPair) -> (outcome: Result<Self, BuildError>)
        decreases pair, 0int, 0int,
    {
        match child(pair, 0) {
            Err(error) => Err(error),
            Ok(found) => match Tree::parse_from(found) {
                Ok(body) => {
                    proof {
                        lemma_tree_view(body);
                    }
                    Ok(Loop { body })
                },
                Err(error) => Err(error),
            },
        }
    }
}

impl Parse for Class {
    /// The children are the name and the body.
    open spec fn built(pair: SpecPair) -> Result<SpecClass, BuildError>
        decreases pair, 0int, 0int,
    {
        if pair.children.len() < 2 {
            Err(missing_child(pair))
        } else {
            match Tree::built(pair.children[1]) {
                Err(error) => Err(error),
                Ok(body) => Ok(SpecClass { ident: pair.children[0].text, body }),
            }
        }
    }

    fn parse_from(pair: &SyntaxPair) -> (outcome: Result<Self, BuildError>)
        decreases pair, 0int, 0int,
    {
        let ident = match child(pair, 0) {
            Ok(name) => Ident(name.text.clone()),
            Err(error) => return Err(error),
        };
        match child(pair, 1) {
            Err(error) => Err(error),
            Ok(found) => match Tree::parse_from(found) {
                Ok(body) => {
                    proof {
                        lemma_tree_view(body);
                    }
                    Ok(Class { ident, body })
                },
                Err(error) => Err(error),
            },
        }
    }
}

impl Parse for TryCatch {
    /// The children are the guarded block and the catch clause, which holds
    /// the handler, or a name and the handler.
    open spec fn built(pair: SpecPair) -> Result<SpecTryCatch, BuildError>
        decreases pair, 0int, 0int,
    {
        if pair.children.len() < 1 {
            Err(missing_child(pair))
        } else {
            match Tree::built(pair.children[0]) {
                Err(error) => Err(error),
                Ok(try_block) => if pair.children.len() < 2 {
                    Err(missing_child(pair))
                } else if pair.children[1].children.len() < 1 {
                    Err(missing_child(pair.children[1]))
                } else {
                    let clause = pair.children[1];
                    match clause.children[0].rule {
                        Rule::Block => match Tree::built(clause.children[0]) {
                            Err(error) => Err(error),
                            Ok(catch_block) => Ok(
                                SpecTryCatch { try_block, catch_ident: None, catch_block },
                            ),
                        },
                        Rule::Ident => if clause.children.len() < 2 {
                            Err(missing_child(clause))
                        } else {
                            match Tree::built(clause.children[1]) {
                                Err(error) => Err(error),
                                Ok(catch_block) => Ok(
                                    SpecTryCatch {
                                        try_block,
                                        catch_ident: Some(clause.children[0].text),
                                        catch_block,
                                    },
                                ),
                            }
                        },
                        rule => Err(
                            BuildError::Bug { code: BugKind::CatchNotBlockOrIdent, rule },
                        ),
                    }
                },
            }
        }
    }

    fn parse_from(pair: &SyntaxPair) -> (outcome: Result<Self, BuildError>)
        decreases pair, 0int, 0int,
    {
        let try_block = match child(pair, 0) {
            Err(error) => return Err(error),
            Ok(found) => match Tree::parse_from(found) {
                Ok(body) => body,
                Err(error) => return Err(error),
            },
        };
        let clause = match child(pair, 1) {
            Ok(found) => found,
            Err(error) => return Err(error),
        };
        let first = match child(clause, 0) {
            Ok(found) => found,
            Err(error) => return Err(error),
        };
        proof {
            lemma_tree_view(try_block);
        }
        match first.rule {
            Rule::Block => match Tree::parse_from(first) {
                Err(error) => Err(error),
                Ok(handler) => {
                    proof {
                        lemma_tree_view(handler);
                    }
                    Ok(TryCatch { try_block: Try(try_block), catch_block: Catch(None, handler) })
                },
            },
            Rule::Ident => {
                let ident = Ident(first.text.clone());
                match child(clause, 1) {
                    Err(error) => Err(error),
                    Ok(found) => match Tree::parse_from(found) {
                        Err(error) => Err(error),
                        Ok(handler) => {
                            proof {
                                lemma_tree_view(handler);
                            }
                            Ok(
                                TryCatch {
                                    try_block: Try(try_block),
                                    catch_block: Catch(Some(ident), handler),
                                },
                            )
                        },
                    },
                }
            },
            rule => Err(BuildError::Bug { code: BugKind::CatchNotBlockOrIdent, rule }),
        }
    }
}

impl Parse for Variable {
    /// The children are the modifier list, the declaration and the value,
    /// read in that order.
    open spec fn built(pair: SpecPair) -> Result<SpecVariable, BuildError>
        decreases pair, 0int, 0int,
    {
        if pair.children.len() < 1 {
            Err(missing_child(pair))
        } else {
            match built_variable_mods(pair.children[0].children, 0) {
                Err(error) => Err(error),
                Ok(modifiers) => if pair.children.len() < 2 {
                    Err(missing_child(pair))
                } else {
                    match Declaration::built(pair.children[1]) {
                        Err(error) => Err(error),
                        Ok(declaration) => if pair.children.len() < 3 {
                            Err(missing_child(pair))
                        } else {
                            match Expr::built(pair.children[2]) {
                                Err(error) => Err(error),
                                Ok(value) => Ok(SpecVariable { modifiers, declaration, value }),
                            }
                        },
                    }
                },
            }
        }
    }

    fn parse_from(pair: &SyntaxPair) -> (outcome: Result<Self, BuildError>)
        decreases pair, 0int, 0int,
    {
        let modifiers = match child(pair, 0) {
            Err(error) => return Err(error),
            Ok(found) => match VariableMod::modifiers_from(found) {
                Ok(modifiers) => modifiers,
                Err(error) => return Err(error),
            },
        };
        let declaration = match child(pair, 1) {
            Err(error) => return Err(error),
            Ok(found) => match Declaration::parse_from(found) {
                Ok(declaration) => declaration,
                Err(error) => return Err(error),
            },
        };
        match child(pair, 2) {
            Err(error) => Err(error),
            Ok(found) => match Expr::parse_from(found) {
                Ok(value) => Ok(Variable { modifiers, declaration, value }),
                Err(error) => Err(error),
            },
        }
    }
}

/// The declarations that the nodes from `from` on write.
pub open spec fn built_declarations(pairs: Seq<SpecPair>, from: int) -> Result<
    Seq<SpecDeclaration>,
    BuildError,
>
    decreases pairs.len() - from,
{
    if from < 0 || from >= pairs.len() {
        Ok(Seq::empty())
    } else {
        match Declaration::built(pairs[from]) {
            Err(error) => Err(error),
            Ok(declaration) => match built_declarations(pairs, from + 1) {
                Err(error) => Err(error),
                Ok(rest) => Ok(seq![declaration] + rest),
            },
        }
    }
}

/// The error for a parameter list in which a name occurs twice; it points at
/// the list.
pub open spec fn duplicate_arguments(list: SpecPair) -> BuildError {
    BuildError::Syntax { kind: SyntaxErrorKind::DuplicateArguments, position: list.position }
}

impl Function {
    /// Builds the declarations under a parameter list.
    pub fn parameters_from(list: &SyntaxPair) -> (outcome: Result<Vec<Declaration>, BuildError>)
        ensures
            modeled(outcome) == built_declarations(list.deep_view().children, 0),
    {
        let ghost pairs = list.deep_view().children;
        let mut args: Vec<Declaration> = Vec::new();
        let mut i: usize = 0;
        proof {
            lemma_pair_view(*list);
            assert(args.deep_view() =~= Seq::empty());
            match built_declarations(pairs, 0) {
                Ok(rest) => assert(args.deep_view() + rest =~= rest),
                Err(_) => {},
            }
        }
        while i < list.children.len()
            invariant
                pairs == list.deep_view().children,
                pairs.len() == list.children.len(),
                built_declarations(pairs, 0) == match built_declarations(pairs, i as int) {
                    Ok(rest) => Ok::<Seq<SpecDeclaration>, BuildError>(args.deep_view() + rest),
                    Err(error) => Err(error),
                },
            decreases list.children.len() - i,
        {
            let declaration = match child(list, i) {
                Err(error) => return Err(error),
                Ok(found) => match Declaration::parse_from(found) {
                    Ok(declaration) => declaration,
                    Err(error) => return Err(error),
                },
            };
            let ghost before = args.deep_view();
            let ghost model = declaration.deep_view();
            args.push(declaration);
            proof {
                assert(args.deep_view() =~= before + seq![model]);
                match built_declarations(pairs, i + 1) {
                    Ok(rest) => assert(before + (seq![model] + rest) =~= args.deep_view() + rest),
                    Err(_) => {},
                }
            }
            i += 1;
        }
        proof {
            assert(args.deep_view() + Seq::<SpecDeclaration>::empty() =~= args.deep_view());
        }
        Ok(args)
    }
}

impl Parse for Function {
    /// The children are the modifier list, the declaration, the parameter
    /// list and the body, read in that order. The parameters are checked for
    /// a repeated name before the body is built.
    open spec fn built(pair: SpecPair) -> Result<SpecFunction, BuildError>
        decreases pair, 0int, 0int,
    {
        if pair.children.len() < 1 {
            Err(missing_child(pair))
        } else {
            match built_function_mods(pair.children[0].children, 0) {
                Err(error) => Err(error),
                Ok(modifiers) => if pair.children.len() < 2 {
                    Err(missing_child(pair))
                } else {
                    match Declaration::built(pair.children[1]) {
                        Err(error) => Err(error),
                        Ok(declaration) => if pair.children.len() < 3 {
                            Err(missing_child(pair))
                        } else {
                            match built_declarations(pair.children[2].children, 0) {
                                Err(error) => Err(error),
                                Ok(args) => if !declared_names(args).no_duplicates() {
                                    Err(duplicate_arguments(pair.children[2]))
                                } else if pair.children.len() < 4 {
                                    Err(missing_child(pair))
                                } else {
                                    match Tree::built(pair.children[3]) {
                                        Err(error) => Err(error),
                                        Ok(body) => Ok(
                                            SpecFunction { modifiers, declaration, args, body },
                                        ),
                                    }
                                },
                            }
                        },
                    }
                },
            }
        }
    }

    fn parse_from(pair: &SyntaxPair) -> (outcome: Result<Self, BuildError>)
        decreases pair, 0int, 0int,
    {
        let modifiers = match child(pair, 0) {
            Err(error) => return Err(error),
            Ok(found) => match FunctionMod::modifiers_from(found) {
                Ok(modifiers) => modifiers,
                Err(error) => return Err(error),
            },
        };
        let declaration = match child(pair, 1) {
            Err(error) => return Err(error),
            Ok(found) => match Declaration::parse_from(found) {
                Ok(declaration) => declaration,
                Err(error) => return Err(error),
            },
        };
        let list = match child(pair, 2) {
            Ok(found) => found,
            Err(error) => return Err(error),
        };
        let args = match Function::parameters_from(list) {
            Ok(args) => args,
            Err(error) => return Err(error),
        };
        if !is_unique(&args) {
            return Err(
                BuildError::Syntax {
                    kind: SyntaxErrorKind::DuplicateArguments,
                    position: list.position,
                },
            );
        }
        match child(pair, 3) {
            Err(error) => Err(error),
            Ok(found) => match Tree::parse_from(found) {
                Err(error) => Err(error),
                Ok(body) => {
                    proof {
                        lemma_tree_view(body);
                    }
                    Ok(Function { modifiers, declaration, args, body })
                },
            },
        }
    }
}

impl Parse for IfNode {
    /// An `if` or `else if` branch holds its condition and its body, an
    /// `else` branch its body alone.
    open spec fn built(pair: SpecPair) -> Result<SpecIfNode, BuildError>
        decreases pair, 0int, 0int,
    {
        match pair.rule {
            Rule::If | Rule::ElseIf => if pair.children.len() < 1 {
                Err(missing_child(pair))
            } else {
                match Expr::built(pair.children[0]) {
                    Err(error) => Err(error),
                    Ok(expr) => if pair.children.len() < 2 {
                        Err(missing_child(pair))
                    } else {
                        match Tree::built(pair.children[1]) {
                            Err(error) => Err(error),
                            Ok(body) => Ok(SpecIfNode::Case(SpecIfCase { expr, body })),
                        }
                    },
                }
            },
            Rule::Else => if pair.children.len() < 1 {
                Err(missing_child(pair))
            } else {
                match Tree::built(pair.children[0]) {
                    Err(error) => Err(error),
                    Ok(body) => Ok(SpecIfNode::Else(body)),
                }
            },
            rule => Err(BuildError::Bug { code: BugKind::InvalidIfNode, rule }),
        }
    }

    fn parse_from(pair: &SyntaxPair) -> (outcome: Result<Self, BuildError>)
        decreases pair, 0int, 0int,
    {
        proof {
            lemma_pair_view(*pair);
        }
        match pair.rule {
            Rule::If | Rule::ElseIf => {
                let expr = match child(pair, 0) {
                    Err(error) => return Err(error),
                    Ok(found) => match Expr::parse_from(found) {
                        Ok(expr) => expr,
                        Err(error) => return Err(error),
                    },
                };
                match child(pair, 1) {
                    Err(error) => Err(error),
                    Ok(found) => match Tree::parse_from(found) {
                        Err(error) => Err(error),
                        Ok(body) => {
                            proof {
                                lemma_tree_view(body);
                            }
                            Ok(IfNode::Case(IfCase { expr, body }))
                        },
                    },
                }
            },
            Rule::Else => match child(pair, 0) {
                Err(error) => Err(error),
                Ok(found) => match Tree::parse_from(found) {
                    Err(error) => Err(error),
                    Ok(body) => {
                        proof {
                            lemma_tree_view(body);
                        }
                        Ok(IfNode::Else(Else { body }))
                    },
                },
            },
            rule => Err(BuildError::Bug { code: BugKind::InvalidIfNode, rule }),
        }
    }
}

/// The branches that the nodes from `from` on write, in the order met.
pub open spec fn built_if_nodes(pairs: Seq<SpecPair>, from: int) -> Result<
    Seq<SpecIfNode>,
    BuildError,
>
    decreases pairs, 0int, pairs.len() - from,
{
    if from < 0 || from >= pairs.len() {
        Ok(Seq::empty())
    } else {
        match IfNode::built(pairs[from]) {
            Err(error) => Err(error),
            Ok(branch) => match built_if_nodes(pairs, from + 1) {
                Err(error) => Err(error),
                Ok(rest) => Ok(seq![branch] + rest),
            },
        }
    }
}

impl Parse for IfBlock {
    open spec fn built(pair: SpecPair) -> Result<Seq<SpecIfNode>, BuildError>
        decreases pair, 0int, 0int,
    {
        built_if_nodes(pair.children, 0)
    }

    fn parse_from(pair: &SyntaxPair) -> (outcome: Result<Self, BuildError>)
        decreases pair, 0int, 0int,
    {
        let ghost pairs = pair.deep_view().children;
        let mut if_nodes: Vec<IfNode> = Vec::new();
        let mut i: usize = 0;
        proof {
            lemma_pair_view(*pair);
            assert(if_nodes.deep_view() =~= Seq::empty());
            match built_if_nodes(pairs, 0) {
                Ok(rest) => assert(if_nodes.deep_view() + rest =~= rest),
                Err(_) => {},
            }
        }
        while i < pair.children.len()
            invariant
                pairs == pair.deep_view().children,
                pairs.len() == pair.children.len(),
                built_if_nodes(pairs, 0) == match built_if_nodes(pairs, i as int) {
                    Ok(rest) => Ok::<Seq<SpecIfNode>, BuildError>(if_nodes.deep_view() + rest),
                    Err(error) => Err(error),
                },
            decreases pair.children.len() - i,
        {
            let branch = match child(pair, i) {
                Err(error) => return Err(error),
                Ok(found) => match IfNode::parse_from(found) {
                    Ok(branch) => branch,
                    Err(error) => return Err(error),
                },
            };
            let ghost before = if_nodes.deep_view();
            let ghost model = branch.deep_view();
            if_nodes.push(branch);
            proof {
                assert(if_nodes.deep_view() =~= before + seq![model]);
                match built_if_nodes(pairs, i + 1) {
                    Ok(rest) => assert(before + (seq![model] + rest) =~= if_nodes.deep_view()
                        + rest),
                    Err(_) => {},
                }
            }
            i += 1;
        }
        let block = IfBlock { if_nodes };
        proof {
            assert(block.deep_view() =~= block.if_nodes.deep_view());
            assert(block.deep_view() + Seq::<SpecIfNode>::empty() =~= block.deep_view());
        }
        Ok(block)
    }
}

} // verus!

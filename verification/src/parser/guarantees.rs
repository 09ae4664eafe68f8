//! What the builder guarantees of every syntax tree, proved from the
//! definitions of what each node yields.
use crate::errors::{BuildError, SyntaxErrorKind};
use crate::parser::from_pair::{
    built_declarations, built_function_mods, built_variable_mods, duplicate_arguments, function_mod,
    invalid_modifier, variable_mod, Parse,
};
use crate::parser::{
    Declaration, Function, FunctionMod, Number, SpecFunction, SpecTerm, Term, Variable, VariableMod,
};
use crate::syntax::{Rule, SpecPair};
use crate::utils::{declared_names, lemma_decimal_value_nonnegative, magnitude, trimmed_end};
use vstd::prelude::*;

verus! {

/// Whether `pair` is a number node that holds the digits `digits`, alone or
/// after a plus or minus sign.
pub open spec fn is_number_literal(pair: SpecPair, digits: Seq<char>) -> bool {
    &&& pair.rule == Rule::Number
    &&& {
        ||| pair.children.len() == 1 && pair.children[0].text == digits
        ||| {
            &&& pair.children.len() == 2
            &&& pair.children[0].rule == Rule::Add || pair.children[0].rule == Rule::Subtract
            &&& pair.children[1].text == digits
        }
    }
}

/// Whether the number node `pair` carries a minus sign.
pub open spec fn has_minus_sign(pair: SpecPair) -> bool {
    pair.children.len() == 2 && pair.children[0].rule == Rule::Subtract
}

/// A number literal with a plus sign or none yields its magnitude, and one
/// with a minus sign yields the magnitude negated: the sign never survives
/// as an operator.
pub proof fn lemma_sign_is_applied(pair: SpecPair, digits: Seq<char>, value: Number)
    requires
        is_number_literal(pair, digits),
        magnitude(digits) == Some(value),
    ensures
        Term::built(pair) matches Ok(SpecTerm::Number(number)) && number == if has_minus_sign(
            pair,
        ) {
            -value
        } else {
            value as int
        },
{
    lemma_decimal_value_nonnegative(digits);
}

/// A modifier list is accepted exactly if each of its tokens is `debug` or
/// `bar`; then every token yields its own modifier, `debug` the debug
/// modifier and `bar` the public one.
pub proof fn lemma_function_modifiers_closed(pairs: Seq<SpecPair>)
    ensures
        built_function_mods(pairs, 0) is Ok <==> forall|k: int|
            0 <= k < pairs.len() ==> function_mod(trimmed_end(#[trigger] pairs[k].text)) is Some,
        built_function_mods(pairs, 0) matches Ok(modifiers) ==> {
            &&& modifiers.len() == pairs.len()
            &&& forall|k: int|
                0 <= k < pairs.len() ==> function_mod(trimmed_end(pairs[k].text)) == Some(
                    #[trigger] modifiers[k],
                )
        },
        forall|token: Seq<char>|
            #[trigger] function_mod(token) is Some <==> token == "debug"@ || token == "bar"@,
        function_mod("debug"@) == Some(FunctionMod::Debug),
        function_mod("bar"@) == Some(FunctionMod::Public),
{
    lemma_function_modifiers_from(pairs, 0);
    reveal_strlit("debug");
    reveal_strlit("bar");
    assert("debug"@.len() != "bar"@.len());
}

/// [`lemma_function_modifiers_closed`] for the tokens from `from` on.
pub proof fn lemma_function_modifiers_from(pairs: Seq<SpecPair>, from: int)
    requires
        0 <= from <= pairs.len(),
    ensures
        built_function_mods(pairs, from) is Ok <==> forall|k: int|
            from <= k < pairs.len() ==> function_mod(trimmed_end(#[trigger] pairs[k].text)) is Some,
        built_function_mods(pairs, from) matches Ok(modifiers) ==> {
            &&& modifiers.len() == pairs.len() - from
            &&& forall|k: int|
                0 <= k < pairs.len() - from ==> function_mod(trimmed_end(pairs[from + k].text))
                    == Some(#[trigger] modifiers[k])
        },
    decreases pairs.len() - from,
{
    if from < pairs.len() {
        lemma_function_modifiers_from(pairs, from + 1);
        match function_mod(trimmed_end(pairs[from].text)) {
            None => {},
            Some(first) => match built_function_mods(pairs, from + 1) {
                Err(_) => {
                    let k = choose|k: int|
                        from + 1 <= k < pairs.len() && !(function_mod(
                            trimmed_end(#[trigger] pairs[k].text),
                        ) is Some);
                    assert(from <= k < pairs.len());
                },
                Ok(rest) => {
                    let modifiers = seq![first] + rest;
                    assert forall|k: int|
                        0 <= k < pairs.len() - from implies
                        function_mod(trimmed_end(pairs[from + k].text)) == Some(
                            #[trigger] modifiers[k],
                        )
                    by {
                        if k > 0 {
                            assert(modifiers[k] == rest[k - 1]);
                        }
                    }
                    assert forall|k: int|
                        from <= k < pairs.len() implies
                        function_mod(trimmed_end(#[trigger] pairs[k].text)) is Some
                    by {
                        if k > from {
                            assert(rest[k - from - 1] == rest[k - (from + 1)]);
                        }
                    }
                },
            },
        }
    }
}

/// The first unknown token of a modifier list is the error of the list, and
/// the error points at that token.
pub proof fn lemma_first_unknown_function_modifier(pairs: Seq<SpecPair>, at: int)
    requires
        0 <= at < pairs.len(),
        function_mod(trimmed_end(pairs[at].text)) is None,
        forall|k: int| 0 <= k < at ==> function_mod(trimmed_end(#[trigger] pairs[k].text)) is Some,
    ensures
        built_function_mods(pairs, 0) == Err::<Seq<FunctionMod>, BuildError>(
            invalid_modifier(pairs[at]),
        ),
{
    lemma_unknown_function_modifier_from(pairs, 0, at);
}

proof fn lemma_unknown_function_modifier_from(pairs: Seq<SpecPair>, from: int, at: int)
    requires
        0 <= from <= at < pairs.len(),
        function_mod(trimmed_end(pairs[at].text)) is None,
        forall|k: int|
            from <= k < at ==> function_mod(trimmed_end(#[trigger] pairs[k].text)) is Some,
    ensures
        built_function_mods(pairs, from) == Err::<Seq<FunctionMod>, BuildError>(
            invalid_modifier(pairs[at]),
        ),
    decreases at - from,
{
    if from < at {
        lemma_unknown_function_modifier_from(pairs, from + 1, at);
    }
}

/// A modifier list with a token other than `debug` and `bar` is refused
/// with a syntax error, wherever the token stands.
pub proof fn lemma_unknown_function_modifier_rejected(pairs: Seq<SpecPair>, from: int, at: int)
    requires
        0 <= from <= at < pairs.len(),
        function_mod(trimmed_end(pairs[at].text)) is None,
    ensures
        built_function_mods(pairs, from) matches Err(BuildError::Syntax { kind, .. }) && kind
            == SyntaxErrorKind::InvalidModifier,
    decreases at - from,
{
    if from < at {
        lemma_unknown_function_modifier_rejected(pairs, from + 1, at);
    }
}

/// A function with a modifier other than `debug` and `bar` is never built:
/// the build ends in a syntax error.
pub proof fn lemma_function_rejects_unknown_modifier(pair: SpecPair, at: int)
    requires
        pair.children.len() >= 1,
        0 <= at < pair.children[0].children.len(),
        function_mod(trimmed_end(pair.children[0].children[at].text)) is None,
    ensures
        Function::built(pair) matches Err(BuildError::Syntax { kind, .. }) && kind
            == SyntaxErrorKind::InvalidModifier,
{
    lemma_unknown_function_modifier_rejected(pair.children[0].children, 0, at);
}

/// A modifier list of a variable is accepted exactly if each of its tokens
/// is `bar`, which yields the public modifier.
pub proof fn lemma_variable_modifiers_closed(pairs: Seq<SpecPair>)
    ensures
        built_variable_mods(pairs, 0) is Ok <==> forall|k: int|
            0 <= k < pairs.len() ==> variable_mod(trimmed_end(#[trigger] pairs[k].text)) is Some,
        built_variable_mods(pairs, 0) matches Ok(modifiers) ==> {
            &&& modifiers.len() == pairs.len()
            &&& forall|k: int|
                0 <= k < pairs.len() ==> variable_mod(trimmed_end(pairs[k].text)) == Some(
                    #[trigger] modifiers[k],
                )
        },
        forall|token: Seq<char>| #[trigger] variable_mod(token) is Some <==> token == "bar"@,
        variable_mod("bar"@) == Some(VariableMod::Public),
{
    lemma_variable_modifiers_from(pairs, 0);
}

/// [`lemma_variable_modifiers_closed`] for the tokens from `from` on.
pub proof fn lemma_variable_modifiers_from(pairs: Seq<SpecPair>, from: int)
    requires
        0 <= from <= pairs.len(),
    ensures
        built_variable_mods(pairs, from) is Ok <==> forall|k: int|
            from <= k < pairs.len() ==> variable_mod(trimmed_end(#[trigger] pairs[k].text)) is Some,
        built_variable_mods(pairs, from) matches Ok(modifiers) ==> {
            &&& modifiers.len() == pairs.len() - from
            &&& forall|k: int|
                0 <= k < pairs.len() - from ==> variable_mod(trimmed_end(pairs[from + k].text))
                    == Some(#[trigger] modifiers[k])
        },
    decreases pairs.len() - from,
{
    if from < pairs.len() {
        lemma_variable_modifiers_from(pairs, from + 1);
        match variable_mod(trimmed_end(pairs[from].text)) {
            None => {},
            Some(first) => match built_variable_mods(pairs, from + 1) {
                Err(_) => {
                    let k = choose|k: int|
                        from + 1 <= k < pairs.len() && !(variable_mod(
                            trimmed_end(#[trigger] pairs[k].text),
                        ) is Some);
                    assert(from <= k < pairs.len());
                },
                Ok(rest) => {
                    let modifiers = seq![first] + rest;
                    assert forall|k: int|
                        0 <= k < pairs.len() - from implies
                        variable_mod(trimmed_end(pairs[from + k].text)) == Some(
                            #[trigger] modifiers[k],
                        )
                    by {
                        if k > 0 {
                            assert(modifiers[k] == rest[k - 1]);
                        }
                    }
                    assert forall|k: int|
                        from <= k < pairs.len() implies
                        variable_mod(trimmed_end(#[trigger] pairs[k].text)) is Some
                    by {
                        if k > from {
                            assert(rest[k - from - 1] == rest[k - (from + 1)]);
                        }
                    }
                },
            },
        }
    }
}

/// A modifier list of a variable with a token other than `bar` is refused
/// with a syntax error, wherever the token stands.
pub proof fn lemma_unknown_variable_modifier_rejected(pairs: Seq<SpecPair>, from: int, at: int)
    requires
        0 <= from <= at < pairs.len(),
        variable_mod(trimmed_end(pairs[at].text)) is None,
    ensures
        built_variable_mods(pairs, from) matches Err(BuildError::Syntax { kind, .. }) && kind
            == SyntaxErrorKind::InvalidModifier,
    decreases at - from,
{
    if from < at {
        lemma_unknown_variable_modifier_rejected(pairs, from + 1, at);
    }
}

/// A variable with a modifier other than `bar` is never built: the build
/// ends in a syntax error.
pub proof fn lemma_variable_rejects_unknown_modifier(pair: SpecPair, at: int)
    requires
        pair.children.len() >= 1,
        0 <= at < pair.children[0].children.len(),
        variable_mod(trimmed_end(pair.children[0].children[at].text)) is None,
    ensures
        Variable::built(pair) matches Err(BuildError::Syntax { kind, .. }) && kind
            == SyntaxErrorKind::InvalidModifier,
{
    lemma_unknown_variable_modifier_rejected(pair.children[0].children, 0, at);
}

/// The declarations built from a run of nodes are as many as the nodes, and
/// each takes its name from the first child of its node.
pub proof fn lemma_declarations_keep_names(pairs: Seq<SpecPair>, from: int)
    requires
        0 <= from <= pairs.len(),
    ensures
        built_declarations(pairs, from) matches Ok(declarations) ==> {
            &&& declarations.len() == pairs.len() - from
            &&& forall|k: int|
                0 <= k < pairs.len() - from ==> {
                    &&& pairs[from + k].children.len() >= 1
                    &&& (#[trigger] declarations[k]).ident == pairs[from + k].children[0].text
                }
        },
    decreases pairs.len() - from,
{
    if from < pairs.len() {
        lemma_declarations_keep_names(pairs, from + 1);
        match Declaration::built(pairs[from]) {
            Err(_) => {},
            Ok(first) => match built_declarations(pairs, from + 1) {
                Err(_) => {},
                Ok(rest) => {
                    let declarations = seq![first] + rest;
                    assert forall|k: int|
                        0 <= k < pairs.len() - from implies
                        {
                            &&& pairs[from + k].children.len() >= 1
                            &&& (#[trigger] declarations[k]).ident
                                == pairs[from + k].children[0].text
                        }
                    by {
                        if k > 0 {
                            assert(declarations[k] == rest[k - 1]);
                        }
                    }
                },
            },
        }
    }
}

/// A function two of whose parameters share a name is never built, however
/// many parameters it has and wherever the two stand. If everything before
/// the parameter list is well-formed, the error is the one for duplicate
/// arguments, and it points at the list.
pub proof fn lemma_duplicate_arguments_rejected(pair: SpecPair, first: int, second: int)
    requires
        pair.children.len() >= 3,
        0 <= first < second < pair.children[2].children.len(),
        pair.children[2].children[first].children.len() >= 1,
        pair.children[2].children[second].children.len() >= 1,
        pair.children[2].children[first].children[0].text
            == pair.children[2].children[second].children[0].text,
    ensures
        Function::built(pair) is Err,
        built_function_mods(pair.children[0].children, 0) is Ok && Declaration::built(
            pair.children[1],
        ) is Ok && built_declarations(pair.children[2].children, 0) is Ok ==> Function::built(pair)
            == Err::<SpecFunction, BuildError>(duplicate_arguments(pair.children[2])),
{
    let list = pair.children[2];
    lemma_declarations_keep_names(list.children, 0);
    match built_declarations(list.children, 0) {
        Err(_) => {},
        Ok(args) => {
            let names = declared_names(args);
            assert(names[first] == args[first].ident);
            assert(names[second] == args[second].ident);
            assert(names[first] == names[second]);
            assert(!names.no_duplicates());
        },
    }
}

} // verus!

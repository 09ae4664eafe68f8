use redditlang::errors::{BugKind, BuildError, SyntaxErrorKind};
use redditlang::parser::from_pair::{child, Parse};
use redditlang::parser::{
    parse, parse_file, parse_one, Assignment, BinaryExpr, BinaryExprTerm, Break, Call, Catch,
    Class, ConditionExprTerm, ConditionalExpr, ConditionalOperator, Declaration, Else, Expr,
    Function, FunctionMod, Ident, IfBlock, IfCase, IfNode, Import, Index, IndexExpr, Loop,
    MathOperator, Module, Node, Return, Term, Throw, Tree, Try, TryCatch, Type, Variable,
    VariableMod,
};
use redditlang::syntax::{Position, Rule, SyntaxPair};
use redditlang::utils::{is_unique, parse_magnitude};

fn at(offset: usize) -> Position {
    Position::new(offset, 1, offset + 1)
}

fn leaf(rule: Rule, text: &str, offset: usize) -> SyntaxPair {
    SyntaxPair::leaf(rule, text, at(offset))
}

fn node(rule: Rule, offset: usize, children: Vec<SyntaxPair>) -> SyntaxPair {
    SyntaxPair::node(rule, "", at(offset), children)
}

fn ident(name: &str) -> SyntaxPair {
    leaf(Rule::Ident, name, 0)
}

fn name(text: &str) -> Ident {
    Ident(text.to_string())
}

fn number(text: &str, offset: usize) -> SyntaxPair {
    let mut children = Vec::new();
    let mut digits = text;
    if let Some(rest) = text.strip_prefix('-') {
        children.push(leaf(Rule::Subtract, "-", offset));
        digits = rest;
    } else if let Some(rest) = text.strip_prefix('+') {
        children.push(leaf(Rule::Add, "+", offset));
        digits = rest;
    }
    children.push(leaf(Rule::UNumber, digits, offset + text.len() - digits.len()));
    SyntaxPair::node(Rule::Number, text, at(offset), children)
}

fn operator(rule: Rule) -> SyntaxPair {
    node(Rule::MathOperator, 0, vec![leaf(rule, "", 0)])
}

fn comparison(rule: Rule) -> SyntaxPair {
    node(Rule::ConditionalOperator, 0, vec![leaf(rule, "", 0)])
}

fn modifiers(tokens: &[(&str, usize)]) -> SyntaxPair {
    node(
        Rule::Modifiers,
        0,
        tokens.iter().map(|(text, offset)| leaf(Rule::Modifier, text, *offset)).collect(),
    )
}

fn declaration(ident_text: &str) -> SyntaxPair {
    node(Rule::Declaration, 0, vec![ident(ident_text)])
}

fn parameters(names: &[&str], offset: usize) -> SyntaxPair {
    node(Rule::Parameters, offset, names.iter().map(|n| declaration(n)).collect())
}

fn block(statements: Vec<SyntaxPair>) -> SyntaxPair {
    node(Rule::Block, 0, statements)
}

fn function(mods: &[(&str, usize)], params: &[&str], body: Vec<SyntaxPair>) -> SyntaxPair {
    node(
        Rule::Function,
        7,
        vec![modifiers(mods), declaration("f"), parameters(params, 40), block(body)],
    )
}

fn untyped(ident_text: &str) -> Declaration {
    Declaration { ident: name(ident_text), ty: None }
}

fn syntax(kind: SyntaxErrorKind, offset: usize) -> BuildError {
    BuildError::Syntax { kind, position: at(offset) }
}

fn bug(code: BugKind, rule: Rule) -> BuildError {
    BuildError::Bug { code, rule }
}

#[test]
fn unsigned_number_is_its_magnitude() {
    assert_eq!(Term::parse_from(&number("5", 0)), Ok(Term::Number(5)));
}

#[test]
fn plus_sign_leaves_the_magnitude() {
    assert_eq!(Term::parse_from(&number("+5", 0)), Ok(Term::Number(5)));
}

#[test]
fn minus_sign_negates_the_magnitude() {
    assert_eq!(Term::parse_from(&number("-5", 0)), Ok(Term::Number(-5)));
    assert_eq!(Term::parse_from(&number("-0", 0)), Ok(Term::Number(0)));
}

#[test]
fn largest_magnitude_is_read_with_either_sign() {
    assert_eq!(
        Term::parse_from(&number("9223372036854775807", 0)),
        Ok(Term::Number(i64::MAX))
    );
    assert_eq!(
        Term::parse_from(&number("-9223372036854775807", 0)),
        Ok(Term::Number(-i64::MAX))
    );
}

#[test]
fn magnitude_that_does_not_fit_is_malformed() {
    assert_eq!(
        Term::parse_from(&number("9223372036854775808", 4)),
        Err(syntax(SyntaxErrorKind::MalformedLiteral, 4))
    );
    assert_eq!(
        Term::parse_from(&number("-99999999999999999999999", 4)),
        Err(syntax(SyntaxErrorKind::MalformedLiteral, 5))
    );
}

#[test]
fn magnitude_with_other_characters_is_malformed() {
    assert_eq!(
        Term::parse_from(&number("12a", 2)),
        Err(syntax(SyntaxErrorKind::MalformedLiteral, 2))
    );
    assert_eq!(Term::parse_from(&number("", 2)), Err(syntax(SyntaxErrorKind::MalformedLiteral, 2)));
}

#[test]
fn magnitudes_are_read_digit_by_digit() {
    assert_eq!(parse_magnitude("0"), Some(0));
    assert_eq!(parse_magnitude("007"), Some(7));
    assert_eq!(parse_magnitude("1234567890"), Some(1234567890));
    assert_eq!(parse_magnitude(""), None);
    assert_eq!(parse_magnitude("+1"), None);
    assert_eq!(parse_magnitude("-1"), None);
    assert_eq!(parse_magnitude("1.5"), None);
    assert_eq!(parse_magnitude("٣"), None);
}

#[test]
fn unknown_sign_is_a_defect() {
    let pair = node(
        Rule::Number,
        0,
        vec![leaf(Rule::Multiply, "*", 0), leaf(Rule::UNumber, "5", 1)],
    );
    assert_eq!(Term::parse_from(&pair), Err(bug(BugKind::InvalidSign, Rule::Multiply)));
}

#[test]
fn number_without_digits_node_is_a_defect() {
    let pair = node(Rule::Number, 0, vec![]);
    assert_eq!(Term::parse_from(&pair), Err(bug(BugKind::MissingChild, Rule::Number)));
}

#[test]
fn string_literal_is_unquoted() {
    let pair = leaf(Rule::String, "\"foo\\n\"", 3);
    assert_eq!(Term::parse_from(&pair), Ok(Term::String("foo\n".to_string())));
    let pair = leaf(Rule::String, "'it\\'s'", 3);
    assert_eq!(Term::parse_from(&pair), Ok(Term::String("it's".to_string())));
}

#[test]
fn malformed_string_literal_is_a_syntax_error() {
    let pair = leaf(Rule::String, "\"foo", 3);
    assert_eq!(Term::parse_from(&pair), Err(syntax(SyntaxErrorKind::MalformedLiteral, 3)));
    let pair = leaf(Rule::String, "\"\\q\"", 9);
    assert_eq!(Term::parse_from(&pair), Err(syntax(SyntaxErrorKind::MalformedLiteral, 9)));
}

#[test]
fn unquoting_decides_the_string_term() {
    assert_eq!(
        Term::from_unquoted(Ok("abc".to_string()), at(1)),
        Ok(Term::String("abc".to_string()))
    );
    assert_eq!(
        Term::from_unquoted(Err(enquote::Error::UnexpectedEOF), at(1)),
        Err(syntax(SyntaxErrorKind::MalformedLiteral, 1))
    );
}

#[test]
fn identifier_is_a_term() {
    let pair = leaf(Rule::Ident, "x", 0);
    assert_eq!(Term::parse_from(&pair), Ok(Term::Ident(name("x"))));
    assert_eq!(parse_one(&pair), Ok(Some(Node::Expr(Expr::Term(Term::Ident(name("x")))))));
    assert_eq!(Ident::parse_from(&pair), Ok(name("x")));
}

#[test]
fn parenthesised_term_is_a_defect() {
    let pair = node(Rule::Expr, 0, vec![leaf(Rule::Ident, "x", 1)]);
    assert_eq!(Term::parse_from(&pair), Err(bug(BugKind::UnsupportedTerm, Rule::Expr)));
    let pair = leaf(Rule::UNumber, "5", 0);
    assert_eq!(Term::parse_from(&pair), Err(bug(BugKind::UnsupportedTerm, Rule::UNumber)));
}

#[test]
fn declaration_with_and_without_type() {
    assert_eq!(Declaration::parse_from(&declaration("x")), Ok(untyped("x")));
    let typed = node(
        Rule::Declaration,
        0,
        vec![ident("x"), node(Rule::Type, 0, vec![ident("Number")])],
    );
    assert_eq!(
        Declaration::parse_from(&typed),
        Ok(Declaration {
            ident: name("x"),
            ty: Some(Type { ident: name("Number"), is_array: false }),
        })
    );
    let array = node(
        Rule::Declaration,
        0,
        vec![ident("x"), node(Rule::Type, 0, vec![ident("Number"), leaf(Rule::Array, "[]", 0)])],
    );
    assert_eq!(
        Declaration::parse_from(&array),
        Ok(Declaration {
            ident: name("x"),
            ty: Some(Type { ident: name("Number"), is_array: true }),
        })
    );
}

#[test]
fn declaration_without_name_is_a_defect() {
    assert_eq!(
        Declaration::parse_from(&node(Rule::Declaration, 0, vec![])),
        Err(bug(BugKind::MissingChild, Rule::Declaration))
    );
    let nameless_type =
        node(Rule::Declaration, 0, vec![ident("x"), node(Rule::Type, 0, vec![])]);
    assert_eq!(
        Declaration::parse_from(&nameless_type),
        Err(bug(BugKind::MissingChild, Rule::Type))
    );
}

#[test]
fn child_is_found_by_position() {
    let pair = node(Rule::Block, 0, vec![ident("a"), ident("b")]);
    assert_eq!(child(&pair, 1).map(|found| found.text.clone()), Ok("b".to_string()));
    assert_eq!(child(&pair, 2).map(|_| ()), Err(bug(BugKind::MissingChild, Rule::Block)));
}

#[test]
fn function_modifiers_map_to_their_meaning() {
    assert_eq!(FunctionMod::from_token("debug"), Some(FunctionMod::Debug));
    assert_eq!(FunctionMod::from_token("bar"), Some(FunctionMod::Public));
    assert_eq!(FunctionMod::from_token("foo"), None);
    assert_eq!(FunctionMod::from_token(""), None);
    assert_eq!(FunctionMod::from_token("Debug"), None);
    assert_eq!(FunctionMod::from_token("debug "), None);
}

#[test]
fn variable_modifiers_map_to_their_meaning() {
    assert_eq!(VariableMod::from_token("bar"), Some(VariableMod::Public));
    assert_eq!(VariableMod::from_token("debug"), None);
    assert_eq!(VariableMod::from_token("baz"), None);
}

#[test]
fn trailing_white_space_is_no_part_of_a_modifier() {
    let pair = function(&[("debug ", 0), ("bar\n", 6)], &[], vec![]);
    assert_eq!(
        Function::parse_from(&pair),
        Ok(Function {
            modifiers: vec![FunctionMod::Debug, FunctionMod::Public],
            declaration: untyped("f"),
            args: vec![],
            body: vec![],
        })
    );
    assert_eq!(
        FunctionMod::modifiers_from(&modifiers(&[(" bar", 0)])),
        Err(syntax(SyntaxErrorKind::InvalidModifier, 0))
    );
}

#[test]
fn unknown_function_modifier_is_reported_at_the_modifier() {
    let pair = function(&[("debug ", 0), ("foo ", 6), ("baz ", 10)], &[], vec![]);
    assert_eq!(Function::parse_from(&pair), Err(syntax(SyntaxErrorKind::InvalidModifier, 6)));
}

#[test]
fn unknown_variable_modifier_is_reported_at_the_modifier() {
    let pair = node(
        Rule::Variable,
        3,
        vec![modifiers(&[("bar ", 3), ("debug ", 7)]), declaration("x"), number("1", 20)],
    );
    assert_eq!(Variable::parse_from(&pair), Err(syntax(SyntaxErrorKind::InvalidModifier, 7)));
    assert_eq!(
        VariableMod::modifiers_from(&modifiers(&[("bar ", 3), ("bar", 7)])),
        Ok(vec![VariableMod::Public, VariableMod::Public])
    );
}

#[test]
fn duplicate_arguments_are_rejected_wherever_they_stand() {
    let expected = Err(syntax(SyntaxErrorKind::DuplicateArguments, 40));
    assert_eq!(Function::parse_from(&function(&[], &["a", "b", "a"], vec![])), expected);
    assert_eq!(Function::parse_from(&function(&[], &["a", "a"], vec![])), expected);
    assert_eq!(Function::parse_from(&function(&[], &["a", "b", "c", "d", "b"], vec![])), expected);
    assert_eq!(Function::parse_from(&function(&[], &["x", "y", "z", "z"], vec![])), expected);
}

#[test]
fn duplicate_arguments_are_found_before_the_body_is_built() {
    let broken_body = vec![leaf(Rule::Modifier, "", 0)];
    assert_eq!(
        Function::parse_from(&function(&[], &["a", "a"], broken_body)),
        Err(syntax(SyntaxErrorKind::DuplicateArguments, 40))
    );
}

#[test]
fn distinct_arguments_are_accepted() {
    assert_eq!(
        Function::parse_from(&function(&[("bar ", 0)], &["a", "b", "A"], vec![leaf(Rule::Break, "", 0)])),
        Ok(Function {
            modifiers: vec![FunctionMod::Public],
            declaration: untyped("f"),
            args: vec![untyped("a"), untyped("b"), untyped("A")],
            body: vec![Node::Break(Break)],
        })
    );
    assert_eq!(
        Function::parameters_from(&parameters(&["a", "b"], 0)),
        Ok(vec![untyped("a"), untyped("b")])
    );
}

#[test]
fn names_are_unique_or_not() {
    assert!(is_unique(&vec![]));
    assert!(is_unique(&vec![untyped("a")]));
    assert!(is_unique(&vec![untyped("a"), untyped("b"), untyped("c")]));
    assert!(!is_unique(&vec![untyped("a"), untyped("b"), untyped("a")]));
    assert!(!is_unique(&vec![untyped("b"), untyped("a"), untyped("a")]));
    assert!(is_unique(&vec![untyped("a"), untyped("A")]));
}

#[test]
fn function_without_all_its_parts_is_a_defect() {
    let pair = node(Rule::Function, 0, vec![modifiers(&[]), declaration("f")]);
    assert_eq!(Function::parse_from(&pair), Err(bug(BugKind::MissingChild, Rule::Function)));
}

#[test]
fn chain_takes_operators_after_operands() {
    let pair = node(
        Rule::BinaryExpr,
        0,
        vec![
            ident("a"),
            operator(Rule::Subtract),
            ident("b"),
            operator(Rule::Multiply),
            ident("c"),
        ],
    );
    assert_eq!(
        BinaryExpr::parse_from(&pair),
        Ok(BinaryExpr {
            terms: vec![
                BinaryExprTerm {
                    operand: Term::Ident(name("a")),
                    operator: Some(MathOperator::Subtract),
                },
                BinaryExprTerm {
                    operand: Term::Ident(name("b")),
                    operator: Some(MathOperator::Multiply),
                },
                BinaryExprTerm { operand: Term::Ident(name("c")), operator: None },
            ],
        })
    );
}

#[test]
fn every_arithmetic_operator_is_known() {
    for (rule, expected) in [
        (Rule::Add, MathOperator::Add),
        (Rule::Subtract, MathOperator::Subtract),
        (Rule::Multiply, MathOperator::Multiply),
        (Rule::Divide, MathOperator::Divide),
        (Rule::XOR, MathOperator::XOR),
    ] {
        assert_eq!(MathOperator::operator_from(&operator(rule)), Ok(expected));
    }
}

#[test]
fn chain_of_one_operand_has_no_operator() {
    let pair = node(Rule::BinaryExpr, 0, vec![number("7", 0)]);
    assert_eq!(
        BinaryExpr::parse_from(&pair),
        Ok(BinaryExpr { terms: vec![BinaryExprTerm { operand: Term::Number(7), operator: None }] })
    );
}

#[test]
fn chain_that_ends_in_an_operator_keeps_it() {
    let pair = node(Rule::BinaryExpr, 0, vec![number("7", 0), operator(Rule::Add)]);
    assert_eq!(
        BinaryExpr::parse_from(&pair),
        Ok(BinaryExpr {
            terms: vec![BinaryExprTerm {
                operand: Term::Number(7),
                operator: Some(MathOperator::Add),
            }],
        })
    );
}

#[test]
fn chain_without_operand_is_a_defect() {
    assert_eq!(
        BinaryExpr::parse_from(&node(Rule::BinaryExpr, 0, vec![])),
        Err(bug(BugKind::MissingChild, Rule::BinaryExpr))
    );
    assert_eq!(
        ConditionalExpr::parse_from(&node(Rule::ConditionalExpr, 0, vec![])),
        Err(bug(BugKind::MissingChild, Rule::ConditionalExpr))
    );
}

#[test]
fn unknown_arithmetic_operator_is_a_defect() {
    let pair = node(
        Rule::BinaryExpr,
        0,
        vec![ident("a"), operator(Rule::Equality), ident("b")],
    );
    assert_eq!(
        BinaryExpr::parse_from(&pair),
        Err(bug(BugKind::UnknownOperator, Rule::MathOperator))
    );
}

#[test]
fn comparison_chain_is_built() {
    let pair = node(
        Rule::ConditionalExpr,
        0,
        vec![ident("x"), comparison(Rule::Equality), number("1", 0), comparison(Rule::Inequality), ident("y")],
    );
    assert_eq!(
        ConditionalExpr::parse_from(&pair),
        Ok(ConditionalExpr {
            terms: vec![
                ConditionExprTerm {
                    operand: Term::Ident(name("x")),
                    operator: Some(ConditionalOperator::Equality),
                },
                ConditionExprTerm {
                    operand: Term::Number(1),
                    operator: Some(ConditionalOperator::AntiEquality),
                },
                ConditionExprTerm { operand: Term::Ident(name("y")), operator: None },
            ],
        })
    );
}

#[test]
fn unknown_comparison_is_a_defect() {
    let pair = node(
        Rule::ConditionalExpr,
        0,
        vec![ident("a"), comparison(Rule::Add), ident("b")],
    );
    assert_eq!(
        ConditionalExpr::parse_from(&pair),
        Err(bug(BugKind::UnknownCondOperator, Rule::Add))
    );
}

#[test]
fn index_is_a_number_or_a_string() {
    let by_position = node(Rule::IndexExpr, 0, vec![ident("xs"), number("2", 0)]);
    assert_eq!(
        IndexExpr::parse_from(&by_position),
        Ok(IndexExpr { term: Term::Ident(name("xs")), index: Index::Number(2) })
    );
    let by_key = node(Rule::IndexExpr, 0, vec![ident("xs"), leaf(Rule::String, "\"k\"", 0)]);
    assert_eq!(
        IndexExpr::parse_from(&by_key),
        Ok(IndexExpr { term: Term::Ident(name("xs")), index: Index::String("k".to_string()) })
    );
    let by_name = node(Rule::IndexExpr, 0, vec![ident("xs"), ident("i")]);
    assert_eq!(
        IndexExpr::parse_from(&by_name),
        Err(bug(BugKind::InvalidIndexTerm, Rule::Ident))
    );
}

#[test]
fn call_takes_one_term_for_each_argument() {
    let pair = node(
        Rule::Call,
        0,
        vec![
            ident("print"),
            node(
                Rule::Arguments,
                0,
                vec![
                    node(Rule::Argument, 0, vec![ident("x")]),
                    node(Rule::Argument, 0, vec![number("-3", 0)]),
                ],
            ),
        ],
    );
    let expected = Call {
        ident: name("print"),
        args: vec![Term::Ident(name("x")), Term::Number(-3)],
    };
    assert_eq!(Call::parse_from(&pair), Ok(expected.clone()));
    assert_eq!(parse_one(&pair), Ok(Some(Node::Call(expected))));
    let empty_argument = node(
        Rule::Call,
        0,
        vec![ident("print"), node(Rule::Arguments, 0, vec![node(Rule::Argument, 0, vec![])])],
    );
    assert_eq!(
        Call::parse_from(&empty_argument),
        Err(bug(BugKind::MissingChild, Rule::Argument))
    );
}

#[test]
fn variable_holds_modifiers_declaration_and_value() {
    let pair = node(
        Rule::Variable,
        3,
        vec![modifiers(&[("bar ", 3)]), declaration("x"), number("1", 20)],
    );
    let expected = Variable {
        modifiers: vec![VariableMod::Public],
        declaration: untyped("x"),
        value: Expr::Term(Term::Number(1)),
    };
    assert_eq!(Variable::parse_from(&pair), Ok(expected.clone()));
    assert_eq!(parse_one(&pair), Ok(Some(Node::Variable(expected))));
}

#[test]
fn statement_in_place_of_a_value_is_reported_at_the_statement() {
    let pair = node(
        Rule::Variable,
        3,
        vec![modifiers(&[]), declaration("x"), leaf(Rule::Break, "break", 17)],
    );
    assert_eq!(Variable::parse_from(&pair), Err(syntax(SyntaxErrorKind::NotAnExpression, 17)));
    assert_eq!(
        Expr::parse_from(&leaf(Rule::EOI, "", 5)),
        Err(syntax(SyntaxErrorKind::NotAnExpression, 5))
    );
    assert_eq!(
        Return::parse_from(&node(Rule::Return, 0, vec![node(Rule::Loop, 9, vec![block(vec![])])])),
        Err(syntax(SyntaxErrorKind::NotAnExpression, 9))
    );
}

#[test]
fn wrapped_expression_is_unwrapped() {
    let pair = node(Rule::Expr, 0, vec![node(Rule::BinaryExpr, 0, vec![number("7", 0)])]);
    let chain =
        BinaryExpr { terms: vec![BinaryExprTerm { operand: Term::Number(7), operator: None }] };
    assert_eq!(Expr::parse_from(&pair), Ok(Expr::BinaryExpr(chain.clone())));
    assert_eq!(parse_one(&pair), Ok(Some(Node::Expr(Expr::BinaryExpr(chain)))));
    assert_eq!(
        parse_one(&node(Rule::Expr, 0, vec![])),
        Err(bug(BugKind::MissingChild, Rule::Expr))
    );
}

#[test]
fn throw_return_and_assignment_hold_a_value() {
    let value = || leaf(Rule::String, "\"boom\"", 0);
    let built = Expr::Term(Term::String("boom".to_string()));
    assert_eq!(
        Throw::parse_from(&node(Rule::Throw, 0, vec![value()])),
        Ok(Throw { value: built.clone() })
    );
    assert_eq!(
        Return::parse_from(&node(Rule::Return, 0, vec![value()])),
        Ok(Return { value: built.clone() })
    );
    assert_eq!(
        Assignment::parse_from(&node(Rule::Assignment, 0, vec![ident("x"), value()])),
        Ok(Assignment { ident: name("x"), value: built.clone() })
    );
    assert_eq!(
        Throw::parse_from(&node(Rule::Throw, 0, vec![])),
        Err(bug(BugKind::MissingChild, Rule::Throw))
    );
}

#[test]
fn import_and_module_are_built() {
    assert_eq!(
        Import::parse_from(&node(Rule::Import, 0, vec![leaf(Rule::String, "'std'", 0)])),
        Ok(Import { path: Term::String("std".to_string()) })
    );
    assert_eq!(
        Module::parse_from(&node(Rule::Module, 0, vec![ident("main")])),
        Ok(Module { ident: name("main") })
    );
    assert_eq!(
        parse_one(&node(Rule::Module, 0, vec![ident("main")])),
        Ok(Some(Node::Module(Module { ident: name("main") })))
    );
}

#[test]
fn loop_and_class_hold_a_body() {
    let body = || block(vec![leaf(Rule::Break, "", 0), leaf(Rule::EOI, "", 0)]);
    assert_eq!(
        Loop::parse_from(&node(Rule::Loop, 0, vec![body()])),
        Ok(Loop { body: vec![Node::Break(Break)] })
    );
    assert_eq!(
        Class::parse_from(&node(Rule::Class, 0, vec![ident("C"), body()])),
        Ok(Class { ident: name("C"), body: vec![Node::Break(Break)] })
    );
    assert_eq!(Break::parse_from(&leaf(Rule::Break, "", 0)), Ok(Break));
    assert_eq!(Tree::parse_from(&body()), Ok(vec![Node::Break(Break)]));
}

#[test]
fn catch_clause_with_and_without_a_name() {
    let anonymous = node(
        Rule::TryCatch,
        0,
        vec![block(vec![]), node(Rule::Catch, 0, vec![block(vec![leaf(Rule::Break, "", 0)])])],
    );
    assert_eq!(
        TryCatch::parse_from(&anonymous),
        Ok(TryCatch { try_block: Try(vec![]), catch_block: Catch(None, vec![Node::Break(Break)]) })
    );
    let named = node(
        Rule::TryCatch,
        0,
        vec![block(vec![]), node(Rule::Catch, 0, vec![ident("e"), block(vec![])])],
    );
    assert_eq!(
        TryCatch::parse_from(&named),
        Ok(TryCatch { try_block: Try(vec![]), catch_block: Catch(Some(name("e")), vec![]) })
    );
    let odd = node(
        Rule::TryCatch,
        0,
        vec![block(vec![]), node(Rule::Catch, 0, vec![number("1", 0)])],
    );
    assert_eq!(
        TryCatch::parse_from(&odd),
        Err(bug(BugKind::CatchNotBlockOrIdent, Rule::Number))
    );
}

#[test]
fn branches_are_assembled_in_order() {
    let pair = node(
        Rule::IfBlock,
        0,
        vec![
            node(Rule::If, 0, vec![ident("a"), block(vec![])]),
            node(Rule::ElseIf, 0, vec![ident("b"), block(vec![leaf(Rule::Break, "", 0)])]),
            node(Rule::Else, 0, vec![block(vec![])]),
        ],
    );
    let expected = IfBlock {
        if_nodes: vec![
            IfNode::Case(IfCase { expr: Expr::Term(Term::Ident(name("a"))), body: vec![] }),
            IfNode::Case(IfCase {
                expr: Expr::Term(Term::Ident(name("b"))),
                body: vec![Node::Break(Break)],
            }),
            IfNode::Else(Else { body: vec![] }),
        ],
    };
    assert_eq!(parse_one(&pair), Ok(Some(Node::If(expected))));
}

#[test]
fn unknown_branch_is_a_defect() {
    let pair = node(Rule::IfBlock, 0, vec![node(Rule::Loop, 0, vec![block(vec![])])]);
    assert_eq!(IfBlock::parse_from(&pair), Err(bug(BugKind::InvalidIfNode, Rule::Loop)));
    assert_eq!(
        IfNode::parse_from(&node(Rule::If, 0, vec![ident("a")])),
        Err(bug(BugKind::MissingChild, Rule::If))
    );
}

#[test]
fn node_that_is_no_statement_is_a_defect() {
    assert_eq!(
        parse_one(&leaf(Rule::Modifiers, "", 0)),
        Err(bug(BugKind::UnexpectedRule, Rule::Modifiers))
    );
}

#[test]
fn end_of_input_yields_no_statement() {
    assert_eq!(parse_one(&leaf(Rule::EOI, "", 0)), Ok(None));
    assert_eq!(
        parse(&vec![leaf(Rule::Break, "", 0), leaf(Rule::EOI, "", 0)]),
        Ok(vec![Node::Break(Break)])
    );
    assert_eq!(parse(&vec![]), Ok(vec![]));
}

#[test]
fn first_error_ends_the_build() {
    let pairs = vec![
        leaf(Rule::Break, "", 0),
        leaf(Rule::String, "'", 11),
        leaf(Rule::Modifiers, "", 0),
    ];
    assert_eq!(parse(&pairs), Err(syntax(SyntaxErrorKind::MalformedLiteral, 11)));
}

#[test]
fn file_is_built_from_what_the_grammar_matched() {
    assert_eq!(
        parse_file(Ok(vec![leaf(Rule::Break, "", 0), leaf(Rule::EOI, "", 0)])),
        Ok(vec![Node::Break(Break)])
    );
    assert_eq!(
        parse_file(Err(Position::new(12, 2, 4))),
        Err(BuildError::Syntax {
            kind: SyntaxErrorKind::Unparsable,
            position: Position::new(12, 2, 4),
        })
    );
}

#[test]
fn errors_say_what_they_are() {
    assert_eq!(SyntaxErrorKind::InvalidModifier.message(), "Invalid modifier");
    assert_eq!(SyntaxErrorKind::DuplicateArguments.message(), "Duplicate arguments");
    assert_eq!(SyntaxErrorKind::NotAnExpression.message(), "Value is not an expression");
    assert_eq!(SyntaxErrorKind::MalformedLiteral.message(), "Malformed literal");
    assert_eq!(SyntaxErrorKind::Unparsable.message(), "Unexpected input");
    assert_eq!(BugKind::InvalidSign.code(), "INVALID_SIGN");
    assert_eq!(BugKind::CatchNotBlockOrIdent.code(), "CATCH_NOT_BLOCK_OR_IDENT");
    assert_eq!(BugKind::UnknownOperator.code(), "UNKNOWN_OPERATOR");
    assert_eq!(BugKind::UnknownCondOperator.code(), "UNKNOWN_COND_OPERATOR");
    assert_eq!(BugKind::InvalidIfNode.code(), "INVALID_IFNODE");
    assert_eq!(BugKind::InvalidIndexTerm.code(), "INVALID_INDEX_TERM");
    assert_eq!(BugKind::MissingChild.code(), "MISSING_CHILD");
    assert_eq!(BugKind::UnsupportedTerm.code(), "UNSUPPORTED_TERM");
    assert_eq!(BugKind::UnexpectedRule.code(), "UNEXPECTED_RULE");
    assert!(syntax(SyntaxErrorKind::InvalidModifier, 0).is_user_error());
    assert!(!bug(BugKind::InvalidSign, Rule::Add).is_user_error());
}

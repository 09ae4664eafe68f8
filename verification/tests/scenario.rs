use redditlang::compiler::flow::{BasicBlock, Instruction, Terminator, ValueRef};
use redditlang::compiler::{compile, CompileMetadata, Compiler};
use redditlang::parser::{
    parse_file, Break, Call, ConditionExprTerm, ConditionalExpr, ConditionalOperator,
    Declaration, Expr, Ident, IfBlock, IfCase, IfNode, Loop, Node, Term, Variable,
};
use redditlang::syntax::{Position, Rule, SyntaxPair};

fn leaf(rule: Rule, text: &str) -> SyntaxPair {
    SyntaxPair::leaf(rule, text, Position::new(0, 1, 1))
}

fn node(rule: Rule, children: Vec<SyntaxPair>) -> SyntaxPair {
    SyntaxPair::node(rule, "", Position::new(0, 1, 1), children)
}

fn number(digits: &str) -> SyntaxPair {
    node(Rule::Number, vec![leaf(Rule::UNumber, digits)])
}

/// The syntax tree of
/// `x = 0; loop { if x == 1 { break } call(x) }`.
fn program() -> Vec<SyntaxPair> {
    let condition = node(
        Rule::ConditionalExpr,
        vec![
            leaf(Rule::Ident, "x"),
            node(Rule::ConditionalOperator, vec![leaf(Rule::Equality, "==")]),
            number("1"),
        ],
    );
    let conditional = node(
        Rule::IfBlock,
        vec![node(Rule::If, vec![condition, node(Rule::Block, vec![leaf(Rule::Break, "break")])])],
    );
    let call = node(
        Rule::Call,
        vec![
            leaf(Rule::Ident, "call"),
            node(Rule::Arguments, vec![node(Rule::Argument, vec![leaf(Rule::Ident, "x")])]),
        ],
    );
    vec![
        node(
            Rule::Variable,
            vec![
                node(Rule::Modifiers, vec![]),
                node(Rule::Declaration, vec![leaf(Rule::Ident, "x")]),
                number("0"),
            ],
        ),
        node(Rule::Loop, vec![node(Rule::Block, vec![conditional, call])]),
        leaf(Rule::EOI, ""),
    ]
}

#[test]
fn loop_with_conditional_break_is_built() {
    let x = || Ident("x".to_string());
    assert_eq!(
        parse_file(Ok(program())),
        Ok(vec![
            Node::Variable(Variable {
                modifiers: vec![],
                declaration: Declaration { ident: x(), ty: None },
                value: Expr::Term(Term::Number(0)),
            }),
            Node::Loop(Loop {
                body: vec![
                    Node::If(IfBlock {
                        if_nodes: vec![IfNode::Case(IfCase {
                            expr: Expr::ConditionalExpr(ConditionalExpr {
                                terms: vec![
                                    ConditionExprTerm {
                                        operand: Term::Ident(x()),
                                        operator: Some(ConditionalOperator::Equality),
                                    },
                                    ConditionExprTerm { operand: Term::Number(1), operator: None },
                                ],
                            }),
                            body: vec![Node::Break(Break)],
                        })],
                    }),
                    Node::Call(Call {
                        ident: Ident("call".to_string()),
                        args: vec![Term::Ident(x())],
                    }),
                ],
            }),
        ])
    );
}

#[test]
fn loop_with_conditional_break_is_lowered() {
    let tree = parse_file(Ok(program())).unwrap();
    let mut compiler = Compiler::new();
    let mut meta = CompileMetadata::new(0);
    assert_eq!(compile(&mut compiler, &tree, &mut meta), Ok(()));
    let value = |block, index| ValueRef { block, index };
    let jump = |target| Some(Terminator::Jump { target });
    let graph: Vec<BasicBlock> =
        (0..compiler.block_count()).map(|block| compiler.block(block).clone()).collect();
    let (entry, header, exit, condition, then, merge, after_break) = (0, 1, 2, 3, 4, 5, 6);
    assert_eq!(
        graph[entry],
        BasicBlock {
            instructions: vec![
                Instruction::Number { value: 0 },
                Instruction::Store { slot: 0, value: value(entry, 0) },
            ],
            terminator: jump(header),
        }
    );
    assert_eq!(graph[header], BasicBlock { instructions: vec![], terminator: jump(condition) });
    assert_eq!(
        graph[condition],
        BasicBlock {
            instructions: vec![
                Instruction::Load { slot: 0 },
                Instruction::Number { value: 1 },
                Instruction::Compare {
                    operator: ConditionalOperator::Equality,
                    left: value(condition, 0),
                    right: value(condition, 1),
                },
            ],
            terminator: Some(Terminator::Branch {
                condition: value(condition, 2),
                on_true: then,
                on_false: merge,
            }),
        }
    );
    assert_eq!(graph[then], BasicBlock { instructions: vec![], terminator: jump(exit) });
    assert_eq!(
        graph[merge],
        BasicBlock {
            instructions: vec![
                Instruction::Load { slot: 0 },
                Instruction::Call { callee: "call".to_string(), args: vec![value(merge, 0)] },
            ],
            terminator: jump(header),
        }
    );
    assert_eq!(graph[after_break], BasicBlock { instructions: vec![], terminator: jump(merge) });
    assert_eq!(graph[exit], BasicBlock { instructions: vec![], terminator: None });
    assert_eq!(graph.len(), 7);
    assert_eq!(meta.basic_block, exit);
    assert!(meta.loop_exits.is_empty());
    assert!(meta.fits(&compiler));
}

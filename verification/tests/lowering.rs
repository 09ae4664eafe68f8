use redditlang::compiler::compile_node::Compile;
use redditlang::compiler::flow::{BasicBlock, Instruction, Terminator, ValueRef};
use redditlang::compiler::{compile, compile_one, CompileMetadata, Compiler, Scope};
use redditlang::errors::{CompileError, CompileErrorClass, Construct};
use redditlang::parser::{
    Assignment, BinaryExpr, BinaryExprTerm, Break, Call, Catch, Class, ConditionExprTerm,
    ConditionalExpr, ConditionalOperator, Declaration, Else, Expr, Function, Ident, IfBlock,
    IfCase, IfNode, Import, Index, IndexExpr, Loop, MathOperator, Module, Node, Return, Term,
    Throw, Tree, Try, TryCatch, Variable,
};

fn name(text: &str) -> Ident {
    Ident(text.to_string())
}

fn read(text: &str) -> Term {
    Term::Ident(name(text))
}

fn declare(ident: &str, value: Expr) -> Node {
    Node::Variable(Variable {
        modifiers: vec![],
        declaration: Declaration { ident: name(ident), ty: None },
        value,
    })
}

fn call(callee: &str, args: Vec<Term>) -> Node {
    Node::Call(Call { ident: name(callee), args })
}

fn equals(left: Term, right: Term) -> Expr {
    Expr::ConditionalExpr(ConditionalExpr {
        terms: vec![
            ConditionExprTerm { operand: left, operator: Some(ConditionalOperator::Equality) },
            ConditionExprTerm { operand: right, operator: None },
        ],
    })
}

fn case(expr: Expr, body: Tree) -> IfNode {
    IfNode::Case(IfCase { expr, body })
}

fn value(block: usize, index: usize) -> ValueRef {
    ValueRef { block, index }
}

fn jump(target: usize) -> Option<Terminator> {
    Some(Terminator::Jump { target })
}

fn lowered(tree: &Tree) -> Result<(Compiler, CompileMetadata), CompileError> {
    let mut compiler = Compiler::new();
    let mut meta = CompileMetadata::new(0);
    assert!(meta.fits(&compiler));
    compile(&mut compiler, tree, &mut meta)?;
    assert!(meta.fits(&compiler));
    Ok((compiler, meta))
}

fn blocks(compiler: &Compiler) -> Vec<BasicBlock> {
    (0..compiler.block_count()).map(|block| compiler.block(block).clone()).collect()
}

fn failure(tree: Tree) -> CompileError {
    match lowered(&tree) {
        Ok(_) => panic!("the tree was lowered"),
        Err(error) => error,
    }
}

/// Follows the terminators from `from`, taking each branch as `truth` says
/// of its condition, until an open block is reached.
fn run(blocks: &[BasicBlock], from: usize, truth: &dyn Fn(ValueRef) -> bool) -> Vec<usize> {
    let mut path = vec![from];
    let mut at = from;
    while let Some(terminator) = blocks[at].terminator {
        at = match terminator {
            Terminator::Jump { target } => target,
            Terminator::Branch { condition, on_true, on_false } => {
                if truth(condition) {
                    on_true
                } else {
                    on_false
                }
            }
        };
        path.push(at);
        assert!(path.len() < 100);
    }
    path
}

#[test]
fn empty_tree_leaves_the_entry_block_open() {
    let (compiler, meta) = lowered(&vec![]).unwrap();
    assert_eq!(blocks(&compiler), vec![BasicBlock { instructions: vec![], terminator: None }]);
    assert_eq!(meta.basic_block, 0);
    assert_eq!(compiler.slot_count(), 0);
}

#[test]
fn variable_stores_its_value_in_a_new_slot() {
    let tree = vec![declare("x", Expr::Term(Term::Number(7)))];
    let (compiler, meta) = lowered(&tree).unwrap();
    assert_eq!(
        blocks(&compiler),
        vec![BasicBlock {
            instructions: vec![
                Instruction::Number { value: 7 },
                Instruction::Store { slot: 0, value: value(0, 0) },
            ],
            terminator: None,
        }]
    );
    assert_eq!(meta.basic_block, 0);
    assert_eq!(compiler.slot_count(), 1);
    assert_eq!(compiler.slot_name(0), "x");
    assert_eq!(meta.function_scope.get(&"x".to_string()), Some(0));
    assert_eq!(meta.function_scope.get(&"y".to_string()), None);
}

#[test]
fn string_is_a_constant() {
    let tree = vec![declare("s", Expr::Term(Term::String("hi".to_string())))];
    let (compiler, _) = lowered(&tree).unwrap();
    assert_eq!(
        compiler.block(0).instructions,
        vec![
            Instruction::Text { value: "hi".to_string() },
            Instruction::Store { slot: 0, value: value(0, 0) },
        ]
    );
}

#[test]
fn chain_is_applied_from_left_to_right() {
    let chain = Expr::BinaryExpr(BinaryExpr {
        terms: vec![
            BinaryExprTerm { operand: read("a"), operator: Some(MathOperator::Subtract) },
            BinaryExprTerm { operand: read("b"), operator: Some(MathOperator::Multiply) },
            BinaryExprTerm { operand: read("c"), operator: None },
        ],
    });
    let tree = vec![
        declare("a", Expr::Term(Term::Number(10))),
        declare("b", Expr::Term(Term::Number(4))),
        declare("c", Expr::Term(Term::Number(3))),
        declare("r", chain),
    ];
    let (compiler, _) = lowered(&tree).unwrap();
    assert_eq!(
        compiler.block(0).instructions[6..],
        [
            Instruction::Load { slot: 0 },
            Instruction::Load { slot: 1 },
            Instruction::Arithmetic {
                operator: MathOperator::Subtract,
                left: value(0, 6),
                right: value(0, 7),
            },
            Instruction::Load { slot: 2 },
            Instruction::Arithmetic {
                operator: MathOperator::Multiply,
                left: value(0, 8),
                right: value(0, 9),
            },
            Instruction::Store { slot: 3, value: value(0, 10) },
        ]
    );
}

#[test]
fn chain_evaluates_to_its_left_fold() {
    fn eval(instructions: &[Instruction], memory: &[i64], at: usize) -> i64 {
        match &instructions[at] {
            Instruction::Number { value } => *value,
            Instruction::Load { slot } => memory[*slot],
            Instruction::Arithmetic { operator, left, right } => {
                let left = eval(instructions, memory, left.index);
                let right = eval(instructions, memory, right.index);
                match operator {
                    MathOperator::Add => left + right,
                    MathOperator::Subtract => left - right,
                    MathOperator::Multiply => left * right,
                    MathOperator::Divide => left / right,
                    MathOperator::XOR => left ^ right,
                }
            }
            other => panic!("no value: {:?}", other),
        }
    }
    let chain = BinaryExpr {
        terms: vec![
            BinaryExprTerm { operand: Term::Number(10), operator: Some(MathOperator::Subtract) },
            BinaryExprTerm { operand: Term::Number(4), operator: Some(MathOperator::Multiply) },
            BinaryExprTerm { operand: Term::Number(3), operator: Some(MathOperator::Add) },
            BinaryExprTerm { operand: Term::Number(2), operator: Some(MathOperator::Divide) },
            BinaryExprTerm { operand: Term::Number(5), operator: None },
        ],
    };
    let mut compiler = Compiler::new();
    let meta = CompileMetadata::new(0);
    let result = chain.evaluate(&mut compiler, &meta).unwrap();
    assert_eq!(result, value(0, 8));
    assert_eq!(eval(&compiler.block(0).instructions, &[], result.index), (((10 - 4) * 3) + 2) / 5);
}

#[test]
fn comparison_chain_is_applied_from_left_to_right() {
    let chain = ConditionalExpr {
        terms: vec![
            ConditionExprTerm {
                operand: Term::Number(1),
                operator: Some(ConditionalOperator::Equality),
            },
            ConditionExprTerm {
                operand: Term::Number(2),
                operator: Some(ConditionalOperator::AntiEquality),
            },
            ConditionExprTerm { operand: Term::Number(3), operator: None },
        ],
    };
    let mut compiler = Compiler::new();
    let meta = CompileMetadata::new(0);
    assert_eq!(chain.evaluate(&mut compiler, &meta), Ok(value(0, 4)));
    assert_eq!(
        compiler.block(0).instructions,
        vec![
            Instruction::Number { value: 1 },
            Instruction::Number { value: 2 },
            Instruction::Compare {
                operator: ConditionalOperator::Equality,
                left: value(0, 0),
                right: value(0, 1),
            },
            Instruction::Number { value: 3 },
            Instruction::Compare {
                operator: ConditionalOperator::AntiEquality,
                left: value(0, 2),
                right: value(0, 3),
            },
        ]
    );
}

#[test]
fn malformed_chains_are_defects() {
    let empty = Expr::BinaryExpr(BinaryExpr { terms: vec![] });
    assert_eq!(failure(vec![declare("x", empty)]), CompileError::MalformedChain);
    let dangling = Expr::BinaryExpr(BinaryExpr {
        terms: vec![BinaryExprTerm {
            operand: Term::Number(1),
            operator: Some(MathOperator::Add),
        }],
    });
    assert_eq!(failure(vec![declare("x", dangling)]), CompileError::MalformedChain);
    let gap = Expr::BinaryExpr(BinaryExpr {
        terms: vec![
            BinaryExprTerm { operand: Term::Number(1), operator: None },
            BinaryExprTerm { operand: Term::Number(2), operator: None },
        ],
    });
    assert_eq!(failure(vec![declare("x", gap)]), CompileError::MalformedChain);
    let no_comparison = Expr::ConditionalExpr(ConditionalExpr { terms: vec![] });
    assert_eq!(failure(vec![declare("x", no_comparison)]), CompileError::MalformedChain);
    let dangling_comparison = Expr::ConditionalExpr(ConditionalExpr {
        terms: vec![ConditionExprTerm {
            operand: Term::Number(1),
            operator: Some(ConditionalOperator::Equality),
        }],
    });
    assert_eq!(failure(vec![declare("x", dangling_comparison)]), CompileError::MalformedChain);
    assert_eq!(CompileError::MalformedChain.class(), CompileErrorClass::Bug);
}

#[test]
fn unbound_name_is_refused() {
    assert_eq!(failure(vec![call("print", vec![read("x")])]), CompileError::UnboundIdentifier);
    assert_eq!(
        failure(vec![declare("x", Expr::Term(read("x")))]),
        CompileError::UnboundIdentifier
    );
    assert_eq!(
        CompileError::UnboundIdentifier.class(),
        CompileErrorClass::ControlFlowIntegrity
    );
}

#[test]
fn call_evaluates_its_arguments_in_order() {
    let tree = vec![
        declare("x", Expr::Term(Term::Number(1))),
        call("print", vec![read("x"), Term::String("!".to_string()), Term::Number(2)]),
    ];
    let (compiler, meta) = lowered(&tree).unwrap();
    assert_eq!(
        compiler.block(0).instructions[2..],
        [
            Instruction::Load { slot: 0 },
            Instruction::Text { value: "!".to_string() },
            Instruction::Number { value: 2 },
            Instruction::Call {
                callee: "print".to_string(),
                args: vec![value(0, 2), value(0, 3), value(0, 4)],
            },
        ]
    );
    assert_eq!(meta.basic_block, 0);
    assert_eq!(compiler.block_count(), 1);
}

#[test]
fn redeclared_name_reads_the_new_slot_from_then_on() {
    let tree = vec![
        declare("x", Expr::Term(Term::Number(1))),
        call("first", vec![read("x")]),
        declare("x", Expr::Term(Term::Number(2))),
        call("second", vec![read("x")]),
    ];
    let (compiler, meta) = lowered(&tree).unwrap();
    let instructions = &compiler.block(0).instructions;
    assert_eq!(instructions[2], Instruction::Load { slot: 0 });
    assert_eq!(instructions[5], Instruction::Store { slot: 1, value: value(0, 4) });
    assert_eq!(instructions[6], Instruction::Load { slot: 1 });
    assert_eq!(compiler.slot_count(), 2);
    assert_eq!(compiler.slot_name(0), "x");
    assert_eq!(compiler.slot_name(1), "x");
    assert_eq!(meta.function_scope.get(&"x".to_string()), Some(1));
}

#[test]
fn redeclaration_reads_the_old_value_in_its_own_value() {
    let tree = vec![
        declare("x", Expr::Term(Term::Number(1))),
        declare("x", Expr::Term(read("x"))),
    ];
    let (compiler, _) = lowered(&tree).unwrap();
    assert_eq!(
        compiler.block(0).instructions[2..],
        [Instruction::Load { slot: 0 }, Instruction::Store { slot: 1, value: value(0, 2) }]
    );
}

#[test]
fn break_outside_a_loop_is_refused() {
    assert_eq!(failure(vec![Node::Break(Break)]), CompileError::BreakOutsideLoop);
    assert_eq!(
        CompileError::BreakOutsideLoop.class(),
        CompileErrorClass::ControlFlowIntegrity
    );
    let mut compiler = Compiler::new();
    let mut meta = CompileMetadata::new(0);
    assert_eq!(Break.compile(&mut compiler, &mut meta), Err(CompileError::BreakOutsideLoop));
}

#[test]
fn break_under_a_conditional_outside_a_loop_is_refused() {
    let tree = vec![
        declare("x", Expr::Term(Term::Number(1))),
        Node::If(IfBlock {
            if_nodes: vec![
                case(Expr::Term(read("x")), vec![]),
                IfNode::Else(Else {
                    body: vec![Node::If(IfBlock {
                        if_nodes: vec![case(Expr::Term(read("x")), vec![Node::Break(Break)])],
                    })],
                }),
            ],
        }),
    ];
    assert_eq!(failure(tree), CompileError::BreakOutsideLoop);
}

#[test]
fn break_after_a_loop_is_refused() {
    let tree = vec![Node::Loop(Loop { body: vec![Node::Break(Break)] }), Node::Break(Break)];
    assert_eq!(failure(tree), CompileError::BreakOutsideLoop);
}

#[test]
fn loop_jumps_to_its_header_and_back() {
    let tree = vec![Node::Loop(Loop { body: vec![call("tick", vec![])] })];
    let (compiler, meta) = lowered(&tree).unwrap();
    assert_eq!(
        blocks(&compiler),
        vec![
            BasicBlock { instructions: vec![], terminator: jump(1) },
            BasicBlock {
                instructions: vec![Instruction::Call { callee: "tick".to_string(), args: vec![] }],
                terminator: jump(1),
            },
            BasicBlock { instructions: vec![], terminator: None },
        ]
    );
    assert_eq!(meta.basic_block, 2);
    assert!(meta.loop_exits.is_empty());
}

#[test]
fn break_jumps_to_the_block_after_the_loop() {
    let tree = vec![Node::Loop(Loop { body: vec![Node::Break(Break), call("dead", vec![])] })];
    let (compiler, meta) = lowered(&tree).unwrap();
    assert_eq!(
        blocks(&compiler),
        vec![
            BasicBlock { instructions: vec![], terminator: jump(1) },
            BasicBlock { instructions: vec![], terminator: jump(2) },
            BasicBlock { instructions: vec![], terminator: None },
            BasicBlock {
                instructions: vec![Instruction::Call { callee: "dead".to_string(), args: vec![] }],
                terminator: jump(1),
            },
        ]
    );
    assert_eq!(meta.basic_block, 2);
}

#[test]
fn break_leaves_the_innermost_loop() {
    let inner = Node::Loop(Loop { body: vec![Node::Break(Break)] });
    let tree = vec![Node::Loop(Loop { body: vec![inner, Node::Break(Break)] })];
    let (compiler, meta) = lowered(&tree).unwrap();
    let graph = blocks(&compiler);
    // outer: header 1, exit 2; inner: header 3, exit 4
    assert_eq!(graph[1].terminator, jump(3));
    assert_eq!(graph[3].terminator, jump(4));
    assert_eq!(graph[4].terminator, jump(2));
    assert_eq!(meta.basic_block, 2);
    assert_eq!(run(&graph, 0, &|_| true), vec![0, 1, 3, 4, 2]);
}

#[test]
fn break_under_conditionals_jumps_straight_out_of_the_loop() {
    for depth in 0..5 {
        let mut body = Node::Break(Break);
        for _ in 0..depth {
            body = Node::If(IfBlock {
                if_nodes: vec![case(Expr::Term(Term::Number(1)), vec![body])],
            });
        }
        let (compiler, meta) = lowered(&vec![Node::Loop(Loop { body: vec![body] })]).unwrap();
        let graph = blocks(&compiler);
        let exit = meta.basic_block;
        assert_eq!(exit, 2);
        let path = run(&graph, 0, &|_| true);
        assert_eq!(path.len(), 2 * depth + 3);
        assert_eq!(path[path.len() - 1], exit);
        let leaving = path[path.len() - 2];
        assert_eq!(graph[leaving].terminator, jump(exit));
        assert!(graph[leaving].instructions.is_empty());
    }
}

#[test]
fn conditional_without_branches_jumps_to_the_merge_block() {
    let tree = vec![Node::If(IfBlock { if_nodes: vec![] })];
    let (compiler, meta) = lowered(&tree).unwrap();
    assert_eq!(
        blocks(&compiler),
        vec![
            BasicBlock { instructions: vec![], terminator: jump(1) },
            BasicBlock { instructions: vec![], terminator: None },
        ]
    );
    assert_eq!(meta.basic_block, 1);
}

#[test]
fn single_case_branches_to_its_body_or_to_the_merge_block() {
    let tree = vec![Node::If(IfBlock {
        if_nodes: vec![case(Expr::Term(Term::Number(1)), vec![call("then", vec![])])],
    })];
    let (compiler, meta) = lowered(&tree).unwrap();
    assert_eq!(
        blocks(&compiler),
        vec![
            BasicBlock { instructions: vec![], terminator: jump(1) },
            BasicBlock {
                instructions: vec![Instruction::Number { value: 1 }],
                terminator: Some(Terminator::Branch {
                    condition: value(1, 0),
                    on_true: 2,
                    on_false: 3,
                }),
            },
            BasicBlock {
                instructions: vec![Instruction::Call { callee: "then".to_string(), args: vec![] }],
                terminator: jump(3),
            },
            BasicBlock { instructions: vec![], terminator: None },
        ]
    );
    assert_eq!(meta.basic_block, 3);
}

fn three_cases_and_else() -> Tree {
    vec![Node::If(IfBlock {
        if_nodes: vec![
            case(Expr::Term(Term::Number(1)), vec![call("one", vec![])]),
            case(Expr::Term(Term::Number(2)), vec![call("two", vec![])]),
            case(Expr::Term(Term::Number(3)), vec![call("three", vec![])]),
            IfNode::Else(Else { body: vec![call("other", vec![])] }),
        ],
    })]
}

#[test]
fn chain_of_conditions_is_wired_in_order() {
    let (compiler, meta) = lowered(&three_cases_and_else()).unwrap();
    let graph = blocks(&compiler);
    assert_eq!(graph.len(), 9);
    assert_eq!(graph[0].terminator, jump(1));
    let branch = |condition, on_true, on_false| {
        Some(Terminator::Branch { condition, on_true, on_false })
    };
    assert_eq!(graph[1].terminator, branch(value(1, 0), 2, 3));
    assert_eq!(graph[3].terminator, branch(value(3, 0), 4, 5));
    assert_eq!(graph[5].terminator, branch(value(5, 0), 6, 7));
    for body in [2, 4, 6, 7] {
        assert_eq!(graph[body].terminator, jump(8));
    }
    assert_eq!(graph[8].terminator, None);
    assert_eq!(meta.basic_block, 8);
    assert_eq!(
        graph[7].instructions,
        vec![Instruction::Call { callee: "other".to_string(), args: vec![] }]
    );
}

#[test]
fn first_true_condition_short_circuits_the_rest() {
    let (compiler, meta) = lowered(&three_cases_and_else()).unwrap();
    let graph = blocks(&compiler);
    let second_only = |condition: ValueRef| condition == value(3, 0);
    assert_eq!(run(&graph, 0, &second_only), vec![0, 1, 3, 4, 8]);
    assert_eq!(meta.basic_block, 8);
    let second_and_third = |condition: ValueRef| condition != value(1, 0);
    assert_eq!(run(&graph, 0, &second_and_third), vec![0, 1, 3, 4, 8]);
    assert_eq!(run(&graph, 0, &|_| true), vec![0, 1, 2, 8]);
    assert_eq!(run(&graph, 0, &|_| false), vec![0, 1, 3, 5, 7, 8]);
}

#[test]
fn else_before_the_end_is_a_defect() {
    let tree = vec![Node::If(IfBlock {
        if_nodes: vec![
            IfNode::Else(Else { body: vec![] }),
            case(Expr::Term(Term::Number(1)), vec![]),
        ],
    })];
    assert_eq!(failure(tree), CompileError::MisplacedElse);
    let two = vec![Node::If(IfBlock {
        if_nodes: vec![IfNode::Else(Else { body: vec![] }), IfNode::Else(Else { body: vec![] })],
    })];
    assert_eq!(failure(two), CompileError::MisplacedElse);
    assert_eq!(CompileError::MisplacedElse.class(), CompileErrorClass::Bug);
    let block = IfBlock { if_nodes: vec![IfNode::Else(Else { body: vec![] })] };
    assert!(block.else_comes_last());
}

#[test]
fn lone_else_runs_its_body() {
    let tree = vec![Node::If(IfBlock {
        if_nodes: vec![IfNode::Else(Else { body: vec![call("other", vec![])] })],
    })];
    let (compiler, meta) = lowered(&tree).unwrap();
    let graph = blocks(&compiler);
    assert_eq!(run(&graph, 0, &|_| false), vec![0, 1, 2]);
    assert_eq!(meta.basic_block, 2);
}

#[test]
fn names_declared_in_a_branch_stay_in_scope() {
    let tree = vec![
        Node::If(IfBlock {
            if_nodes: vec![case(
                Expr::Term(Term::Number(1)),
                vec![declare("x", Expr::Term(Term::Number(2)))],
            )],
        }),
        call("print", vec![read("x")]),
    ];
    let (compiler, meta) = lowered(&tree).unwrap();
    assert_eq!(meta.basic_block, 3);
    assert_eq!(
        compiler.block(3).instructions,
        vec![
            Instruction::Load { slot: 0 },
            Instruction::Call { callee: "print".to_string(), args: vec![value(3, 0)] },
        ]
    );
}

#[test]
fn statements_without_a_lowering_are_refused() {
    let value = || Expr::Term(Term::Number(1));
    let unsupported: Vec<(Node, Construct)> = vec![
        (
            Node::Function(Function {
                modifiers: vec![],
                declaration: Declaration { ident: name("f"), ty: None },
                args: vec![],
                body: vec![],
            }),
            Construct::Function,
        ),
        (Node::Throw(Throw { value: value() }), Construct::Throw),
        (Node::Import(Import { path: Term::String("std".to_string()) }), Construct::Import),
        (Node::Module(Module { ident: name("m") }), Construct::Module),
        (
            Node::TryCatch(TryCatch { try_block: Try(vec![]), catch_block: Catch(None, vec![]) }),
            Construct::TryCatch,
        ),
        (Node::Assignment(Assignment { ident: name("x"), value: value() }), Construct::Assignment),
        (Node::Class(Class { ident: name("C"), body: vec![] }), Construct::Class),
        (Node::Return(Return { value: value() }), Construct::Return),
    ];
    for (node, construct) in unsupported {
        let mut compiler = Compiler::new();
        let mut meta = CompileMetadata::new(0);
        assert_eq!(
            compile_one(&mut compiler, &node, &mut meta),
            Err(CompileError::Unsupported { construct })
        );
        assert_eq!(
            CompileError::Unsupported { construct }.class(),
            CompileErrorClass::NotImplemented
        );
    }
    let indexed = Expr::IndexExpr(IndexExpr { term: Term::Number(1), index: Index::Number(0) });
    assert_eq!(
        failure(vec![declare("x", indexed)]),
        CompileError::Unsupported { construct: Construct::IndexExpr }
    );
}

#[test]
fn expression_is_no_statement() {
    assert_eq!(
        failure(vec![Node::Expr(Expr::Term(Term::Number(1)))]),
        CompileError::ExprIsStatement
    );
    assert_eq!(CompileError::ExprIsStatement.class(), CompileErrorClass::Bug);
}

#[test]
fn first_error_ends_the_compilation() {
    let tree = vec![
        call("ok", vec![]),
        Node::Break(Break),
        Node::Expr(Expr::Term(Term::Number(1))),
    ];
    assert_eq!(failure(tree), CompileError::BreakOutsideLoop);
}

#[test]
fn scope_keeps_the_latest_binding() {
    let mut scope = Scope::new();
    assert_eq!(scope.get(&"x".to_string()), None);
    scope.insert("x".to_string(), 3);
    scope.insert("y".to_string(), 4);
    assert_eq!(scope.get(&"x".to_string()), Some(3));
    scope.insert("x".to_string(), 5);
    assert_eq!(scope.get(&"x".to_string()), Some(5));
    assert_eq!(scope.get(&"y".to_string()), Some(4));
    assert_eq!(scope.get(&"X".to_string()), None);
    assert!(scope.stays_below(6));
    assert!(!scope.stays_below(5));
    scope.insert("x".to_string(), 0);
    assert!(scope.stays_below(5));
    assert!(!scope.stays_below(4));
}

#[test]
fn metadata_fits_only_a_function_it_belongs_to() {
    let compiler = Compiler::new();
    assert!(compiler.is_closed());
    assert!(CompileMetadata::new(0).fits(&compiler));
    assert!(!CompileMetadata::new(1).fits(&compiler));
    let mut unknown_slot = CompileMetadata::new(0);
    unknown_slot.function_scope.insert("x".to_string(), 0);
    assert!(!unknown_slot.fits(&compiler));
    let mut unknown_exit = CompileMetadata::new(0);
    unknown_exit.loop_exits.push(1);
    assert!(!unknown_exit.fits(&compiler));
    let mut exit_at_cursor = CompileMetadata::new(0);
    exit_at_cursor.loop_exits.push(0);
    assert!(!exit_at_cursor.fits(&compiler));
    let (after_loop, meta) = lowered(&vec![Node::Loop(Loop { body: vec![] })]).unwrap();
    assert!(meta.fits(&after_loop));
    assert!(!CompileMetadata::new(0).fits(&after_loop));
    assert!(!CompileMetadata::new(1).fits(&after_loop));
    assert!(CompileMetadata::new(2).fits(&after_loop));
}

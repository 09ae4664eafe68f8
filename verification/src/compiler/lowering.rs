//! What lowering produces, as mathematics.
//!
//! A [`Lowering`] is the state of a function under construction. Each
//! `lower_*` function says what state a piece of the tree leads to, or with
//! which error it is refused. The executable compiler computes exactly
//! these.
use crate::compiler::flow::{SpecBlock, SpecInstruction, SpecTerminator, SpecValueRef};
use crate::errors::{CompileError, Construct};
use crate::parser::{
    SpecBinaryExprTerm, SpecCall, SpecConditionExprTerm, SpecExpr, SpecIfNode, SpecNode, SpecTerm,
    SpecVariable,
};
use vstd::prelude::*;

verus! {

/// The state of a function under construction.
pub ghost struct Lowering {
    /// The basic blocks created so far.
    pub blocks: Seq<SpecBlock>,
    /// The storage slots allocated so far, each with the name it was
    /// allocated for.
    pub slots: Seq<Seq<char>>,
    /// The block that code is being added to.
    pub cursor: int,
    /// The slot that each name in scope stands for.
    pub scope: Map<Seq<char>, int>,
    /// For each loop around the cursor, outermost first, the block that
    /// follows the loop.
    pub loop_exits: Seq<int>,
}

/// A run of `count` empty, open blocks.
pub open spec fn empty_blocks(count: nat) -> Seq<SpecBlock> {
    Seq::new(count, |i: int| SpecBlock::empty())
}

impl Lowering {
    /// The state is well-formed: the cursor is an open block, terminators
    /// name blocks that exist, the blocks that follow the surrounding loops
    /// are open and none of them is the cursor, and names stand for slots
    /// that exist.
    pub open spec fn wf(self) -> bool {
        &&& 0 <= self.cursor < self.blocks.len()
        &&& self.blocks[self.cursor].terminator is None
        &&& forall|b: int|
            0 <= b < self.blocks.len() ==> ((#[trigger] self.blocks[b]).terminator matches Some(
                terminator,
            ) ==> terminator.stays_within(self.blocks.len() as int))
        &&& forall|i: int|
            0 <= i < self.loop_exits.len() ==> {
                let exit = #[trigger] self.loop_exits[i];
                &&& 0 <= exit < self.blocks.len()
                &&& exit != self.cursor
                &&& self.blocks[exit].terminator is None
            }
        &&& forall|name: Seq<char>|
            self.scope.contains_key(name) ==> 0 <= #[trigger] self.scope[name] < self.slots.len()
    }

    /// The value that the next instruction emitted at the cursor computes.
    pub open spec fn next_value(self) -> SpecValueRef {
        SpecValueRef {
            block: self.cursor,
            index: self.blocks[self.cursor].instructions.len() as int,
        }
    }

    /// The state after appending `instruction` at the cursor.
    pub open spec fn emit(self, instruction: SpecInstruction) -> Lowering {
        Lowering {
            blocks: self.blocks.update(
                self.cursor,
                SpecBlock {
                    instructions: self.blocks[self.cursor].instructions.push(instruction),
                    terminator: self.blocks[self.cursor].terminator,
                },
            ),
            ..self
        }
    }

    /// The state after adding one empty, open block at the end.
    pub open spec fn open_block(self) -> Lowering {
        Lowering { blocks: self.blocks.push(SpecBlock::empty()), ..self }
    }

    /// The state after adding `count` empty, open blocks at the end.
    pub open spec fn open_blocks(self, count: nat) -> Lowering {
        Lowering { blocks: self.blocks + empty_blocks(count), ..self }
    }

    /// The state after closing the block at the cursor with `terminator`.
    pub open spec fn seal(self, terminator: SpecTerminator) -> Lowering {
        Lowering {
            blocks: self.blocks.update(
                self.cursor,
                SpecBlock {
                    instructions: self.blocks[self.cursor].instructions,
                    terminator: Some(terminator),
                },
            ),
            ..self
        }
    }

    /// The state with the cursor at `block`.
    pub open spec fn move_to(self, block: int) -> Lowering {
        Lowering { cursor: block, ..self }
    }

    /// The state after allocating a slot for `name`, storing `value` in it
    /// at the cursor, and letting `name` stand for it from here on.
    pub open spec fn declare(self, name: Seq<char>, value: SpecValueRef) -> Lowering {
        let slot = self.slots.len() as int;
        Lowering {
            slots: self.slots.push(name),
            scope: self.scope.insert(name, slot),
            ..self.emit(SpecInstruction::Store { slot, value })
        }
    }

    /// The state inside a loop that is followed by the block `exit`.
    pub open spec fn enter_loop(self, exit: int) -> Lowering {
        Lowering { loop_exits: self.loop_exits.push(exit), ..self }
    }

    /// The state after leaving the innermost loop.
    pub open spec fn leave_loop(self) -> Lowering {
        Lowering { loop_exits: self.loop_exits.drop_last(), ..self }
    }
}

/// A term is one instruction at the cursor: a constant, or the load of the
/// slot that the name stands for. A name that nothing has bound is refused.
pub open spec fn lower_term(s: Lowering, term: SpecTerm) -> Result<
    (Lowering, SpecValueRef),
    CompileError,
> {
    match term {
        SpecTerm::String(text) => Ok(
            (s.emit(SpecInstruction::Text { value: text }), s.next_value()),
        ),
        SpecTerm::Number(value) => Ok((s.emit(SpecInstruction::Number { value }), s.next_value())),
        SpecTerm::Ident(name) => if s.scope.contains_key(name) {
            Ok((s.emit(SpecInstruction::Load { slot: s.scope[name] }), s.next_value()))
        } else {
            Err(CompileError::UnboundIdentifier)
        },
    }
}

/// The rest of an arithmetic chain, from operand `from` on, given the value
/// `left` of everything before it: each step applies the operator that
/// follows the previous operand to `left` and the next operand.
pub open spec fn lower_math_rest(
    s: Lowering,
    left: SpecValueRef,
    terms: Seq<SpecBinaryExprTerm>,
    from: int,
) -> Result<(Lowering, SpecValueRef), CompileError>
    decreases terms.len() - from,
{
    if from < 1 || from >= terms.len() {
        if terms.len() >= 1 && terms.last().operator is Some {
            Err(CompileError::MalformedChain)
        } else {
            Ok((s, left))
        }
    } else {
        match terms[from - 1].operator {
            None => Err(CompileError::MalformedChain),
            Some(operator) => match lower_term(s, terms[from].operand) {
                Err(error) => Err(error),
                Ok((after, right)) => lower_math_rest(
                    after.emit(SpecInstruction::Arithmetic { operator, left, right }),
                    after.next_value(),
                    terms,
                    from + 1,
                ),
            },
        }
    }
}

/// An arithmetic chain is evaluated from left to right, whatever its
/// operators are.
pub open spec fn lower_math_chain(s: Lowering, terms: Seq<SpecBinaryExprTerm>) -> Result<
    (Lowering, SpecValueRef),
    CompileError,
> {
    if terms.len() < 1 {
        Err(CompileError::MalformedChain)
    } else {
        match lower_term(s, terms[0].operand) {
            Err(error) => Err(error),
            Ok((after, first)) => lower_math_rest(after, first, terms, 1),
        }
    }
}

/// As [`lower_math_rest`], for a chain of comparisons.
pub open spec fn lower_condition_rest(
    s: Lowering,
    left: SpecValueRef,
    terms: Seq<SpecConditionExprTerm>,
    from: int,
) -> Result<(Lowering, SpecValueRef), CompileError>
    decreases terms.len() - from,
{
    if from < 1 || from >= terms.len() {
        if terms.len() >= 1 && terms.last().operator is Some {
            Err(CompileError::MalformedChain)
        } else {
            Ok((s, left))
        }
    } else {
        match terms[from - 1].operator {
            None => Err(CompileError::MalformedChain),
            Some(operator) => match lower_term(s, terms[from].operand) {
                Err(error) => Err(error),
                Ok((after, right)) => lower_condition_rest(
                    after.emit(SpecInstruction::Compare { operator, left, right }),
                    after.next_value(),
                    terms,
                    from + 1,
                ),
            },
        }
    }
}

/// As [`lower_math_chain`], for a chain of comparisons.
pub open spec fn lower_condition_chain(s: Lowering, terms: Seq<SpecConditionExprTerm>) -> Result<
    (Lowering, SpecValueRef),
    CompileError,
> {
    if terms.len() < 1 {
        Err(CompileError::MalformedChain)
    } else {
        match lower_term(s, terms[0].operand) {
            Err(error) => Err(error),
            Ok((after, first)) => lower_condition_rest(after, first, terms, 1),
        }
    }
}

/// An expression is straight-line code at the cursor, and yields the value
/// of its last instruction.
pub open spec fn lower_expr(s: Lowering, expr: SpecExpr) -> Result<
    (Lowering, SpecValueRef),
    CompileError,
> {
    match expr {
        SpecExpr::Term(term) => lower_term(s, term),
        SpecExpr::BinaryExpr(terms) => lower_math_chain(s, terms),
        SpecExpr::ConditionalExpr(terms) => lower_condition_chain(s, terms),
        SpecExpr::IndexExpr(_) => Err(
            CompileError::Unsupported { construct: Construct::IndexExpr },
        ),
    }
}

/// A variable evaluates its value, then binds its name to a new slot that
/// holds the value. The name stands for the old slot, if it had one, while
/// the value is evaluated, and for the new one afterwards.
pub open spec fn lower_variable(s: Lowering, variable: SpecVariable) -> Result<
    Lowering,
    CompileError,
> {
    match lower_expr(s, variable.value) {
        Err(error) => Err(error),
        Ok((after, value)) => Ok(after.declare(variable.declaration.ident, value)),
    }
}

/// The arguments from `from` on, evaluated in order after `values`.
pub open spec fn lower_arguments(
    s: Lowering,
    values: Seq<SpecValueRef>,
    args: Seq<SpecTerm>,
    from: int,
) -> Result<(Lowering, Seq<SpecValueRef>), CompileError>
    decreases args.len() - from,
{
    if from < 0 || from >= args.len() {
        Ok((s, values))
    } else {
        match lower_term(s, args[from]) {
            Err(error) => Err(error),
            Ok((after, value)) => lower_arguments(after, values.push(value), args, from + 1),
        }
    }
}

/// A call evaluates its arguments in order and then calls.
pub open spec fn lower_call(s: Lowering, call: SpecCall) -> Result<Lowering, CompileError> {
    match lower_arguments(s, Seq::empty(), call.args, 0) {
        Err(error) => Err(error),
        Ok((after, args)) => Ok(after.emit(SpecInstruction::Call { callee: call.ident, args })),
    }
}

/// A break closes the cursor with a jump to the block that follows the
/// innermost loop. What stands after the break in the same body is lowered
/// into a new block that nothing leads to. Outside any loop a break is
/// refused.
pub open spec fn lower_break(s: Lowering) -> Result<Lowering, CompileError> {
    if s.loop_exits.len() == 0 {
        Err(CompileError::BreakOutsideLoop)
    } else {
        Ok(
            s.seal(SpecTerminator::Jump { target: s.loop_exits.last() }).open_block().move_to(
                s.blocks.len() as int,
            ),
        )
    }
}

/// A loop gets a header block, into which the body is lowered, and an exit
/// block, which follows the loop. The cursor jumps to the header, the end of
/// the body jumps back to it, and lowering goes on at the exit.
pub open spec fn lower_loop(s: Lowering, body: Seq<SpecNode>) -> Result<Lowering, CompileError>
    decreases body, body.len() + 1,
{
    let header = s.blocks.len() as int;
    let exit = header + 1;
    let inside = s.open_blocks(2).seal(SpecTerminator::Jump { target: header }).move_to(
        header,
    ).enter_loop(exit);
    match lower_nodes(inside, body, 0) {
        Err(error) => Err(error),
        Ok(after) => Ok(
            after.seal(SpecTerminator::Jump { target: header }).leave_loop().move_to(exit),
        ),
    }
}

/// Whether only the last branch of the chain, if any, is an `Else`.
pub open spec fn else_comes_last(branches: Seq<SpecIfNode>) -> bool {
    forall|i: int| 0 <= i < branches.len() - 1 ==> (#[trigger] branches[i]) is Case
}

/// The block in which branch `index` of a chain starts, if the blocks of
/// the chain start at `base`: the block that evaluates its condition, or,
/// for an `Else`, its body. Past the last branch it is the merge block.
pub open spec fn branch_entry(base: int, branches: Seq<SpecIfNode>, index: int) -> int {
    if index < branches.len() {
        base + 2 * index
    } else {
        merge_block(base, branches)
    }
}

/// The block in which the body of the case at `index` starts.
pub open spec fn case_body(base: int, index: int) -> int {
    base + 2 * index + 1
}

/// The block that every branch of the chain leads to when its body is done.
pub open spec fn merge_block(base: int, branches: Seq<SpecIfNode>) -> int {
    if branches.len() > 0 && branches.last() is Else {
        base + 2 * branches.len() - 1
    } else {
        base + 2 * branches.len()
    }
}

/// The branches from `index` on, with the cursor at the start of branch
/// `index`. A case evaluates its condition there and branches to its body
/// or to the start of the next branch; every body ends with a jump to the
/// merge block.
pub open spec fn lower_branches(
    s: Lowering,
    branches: Seq<SpecIfNode>,
    base: int,
    index: int,
) -> Result<
    Lowering,
    CompileError,
>
    decreases branches, branches.len() - index,
{
    if index < 0 || index >= branches.len() {
        Ok(s)
    } else {
        let merge = merge_block(base, branches);
        let next = branch_entry(base, branches, index + 1);
        match branches[index] {
            SpecIfNode::Case(case) => match lower_expr(s, case.expr) {
                Err(error) => Err(error),
                Ok((evaluated, condition)) => {
                    let body = case_body(base, index);
                    let inside = evaluated.seal(
                        SpecTerminator::Branch { condition, on_true: body, on_false: next },
                    ).move_to(body);
                    match lower_nodes(inside, case.body, 0) {
                        Err(error) => Err(error),
                        Ok(after) => lower_branches(
                            after.seal(SpecTerminator::Jump { target: merge }).move_to(next),
                            branches,
                            base,
                            index + 1,
                        ),
                    }
                },
            },
            SpecIfNode::Else(body) => match lower_nodes(s, body, 0) {
                Err(error) => Err(error),
                Ok(after) => lower_branches(
                    after.seal(SpecTerminator::Jump { target: merge }).move_to(next),
                    branches,
                    base,
                    index + 1,
                ),
            },
        }
    }
}

/// A chain of conditions gets, for each case, a block that evaluates the
/// condition and a block for the body, a block for the body of the `Else`,
/// and a merge block. The cursor jumps to the first of them, and lowering
/// goes on at the merge block. An `Else` before the end of the chain is
/// refused.
pub open spec fn lower_if(s: Lowering, branches: Seq<SpecIfNode>) -> Result<Lowering, CompileError>
    decreases branches, branches.len() + 1,
{
    if !else_comes_last(branches) {
        Err(CompileError::MisplacedElse)
    } else {
        let base = s.blocks.len() as int;
        let merge = merge_block(base, branches);
        let first = branch_entry(base, branches, 0);
        lower_branches(
            s.open_blocks((merge - base + 1) as nat).seal(
                SpecTerminator::Jump { target: first },
            ).move_to(first),
            branches,
            base,
            0,
        )
    }
}

/// One statement. Variables, calls, conditionals, loops and breaks are
/// lowered; the other statements have no lowering yet, and an expression is
/// no statement.
pub open spec fn lower_node(s: Lowering, node: SpecNode) -> Result<Lowering, CompileError>
    decreases node, 0nat,
{
    match node {
        SpecNode::Loop(body) => lower_loop(s, body),
        SpecNode::Break => lower_break(s),
        SpecNode::Call(call) => lower_call(s, call),
        SpecNode::Variable(variable) => lower_variable(s, variable),
        SpecNode::If(branches) => lower_if(s, branches),
        SpecNode::Function(_) => Err(CompileError::Unsupported { construct: Construct::Function }),
        SpecNode::Throw(_) => Err(CompileError::Unsupported { construct: Construct::Throw }),
        SpecNode::Import(_) => Err(CompileError::Unsupported { construct: Construct::Import }),
        SpecNode::Module(_) => Err(CompileError::Unsupported { construct: Construct::Module }),
        SpecNode::TryCatch(_) => Err(CompileError::Unsupported { construct: Construct::TryCatch }),
        SpecNode::Assignment(_) => Err(
            CompileError::Unsupported { construct: Construct::Assignment },
        ),
        SpecNode::Class(_) => Err(CompileError::Unsupported { construct: Construct::Class }),
        SpecNode::Return(_) => Err(CompileError::Unsupported { construct: Construct::Return }),
        SpecNode::Expr(_) => Err(CompileError::ExprIsStatement),
    }
}

/// The statements from `from` on, one after the other. The first error
/// ends the lowering.
pub open spec fn lower_nodes(s: Lowering, tree: Seq<SpecNode>, from: int) -> Result<
    Lowering,
    CompileError,
>
    decreases tree, tree.len() - from,
{
    if from < 0 || from >= tree.len() {
        Ok(s)
    } else {
        match lower_node(s, tree[from]) {
            Err(error) => Err(error),
            Ok(after) => lower_nodes(after, tree, from + 1),
        }
    }
}

} // verus!

//! Lowering of each kind of statement and expression.
use crate::compiler::flow::{BlockId, Instruction, SpecBlock, SpecValueRef, Terminator, ValueRef};
use crate::compiler::frames::{
    case_inside, lemma_branch_body_done, lemma_break_extends, lemma_call_extends, lemma_case_begins,
    lemma_chain_begins, lemma_if_extends, lemma_loop_begins, lemma_loop_extends, lemma_open_blocks,
    lemma_variable_extends, lemma_within_chain, lemma_within_chain_else, within_chain,
};
use crate::compiler::lowering::{
    branch_entry, else_comes_last, empty_blocks, lower_arguments, lower_branches, lower_break,
    lower_call, lower_condition_chain, lower_condition_rest, lower_expr, lower_if, lower_loop,
    lower_math_chain, lower_math_rest, lower_term, lower_variable, merge_block, Lowering,
};
use crate::compiler::soundness::{
    lemma_break_is_sound, lemma_call_is_sound, lemma_if_is_sound, lemma_loop_is_sound,
    lemma_variable_is_sound,
};
use crate::compiler::{compile, exits_view, lowering, CompileMetadata, Compiler};
use crate::errors::{CompileError, Construct};
use crate::parser::{
    lemma_tree_view, BinaryExpr, Break, Call, ConditionalExpr, Expr, IfBlock, IfNode, Loop, Term,
    Variable,
};
use vstd::prelude::*;

verus! {

/// Whether a compilation that had to lead from `before` to `expected` did:
/// it succeeded and left the state `after` that was expected, which
/// continues `before` and is sound if `before` was; or it failed with the
/// error that was expected.
pub open spec fn compiled(
    before: Lowering,
    expected: Result<Lowering, CompileError>,
    outcome: Result<(), CompileError>,
    after: Lowering,
) -> bool {
    match expected {
        Ok(state) => {
            &&& outcome is Ok
            &&& after == state
            &&& before.extends_to(after)
            &&& before.is_sound() ==> after.is_sound()
        },
        Err(error) => outcome == Err::<(), CompileError>(error),
    }
}

/// Whether the evaluation of an expression that had to yield `expected`
/// did: it succeeded with the value and left the state that were
/// expected, or it failed with the error that was expected.
pub open spec fn evaluated(
    expected: Result<(Lowering, SpecValueRef), CompileError>,
    outcome: Result<ValueRef, CompileError>,
    after: Lowering,
) -> bool {
    match expected {
        Ok((state, value)) => outcome matches Ok(found) && found.deep_view() == value && after
            == state,
        Err(error) => outcome == Err::<ValueRef, CompileError>(error),
    }
}

/// A statement that can be lowered into the function under construction.
pub trait Compile: DeepView {
    /// The state that lowering the statement `model` leads to from `s`.
    spec fn lowered(s: Lowering, model: Self::V) -> Result<Lowering, CompileError>;

    /// Lowers the statement at the cursor, and leaves the cursor where
    /// execution goes on after the statement.
    fn compile(&self, compiler: &mut Compiler, compile_meta: &mut CompileMetadata) -> (outcome:
        Result<(), CompileError>)
        requires
            lowering(*old(compiler), *old(compile_meta)).wf(),
        ensures
            compiled(
                lowering(*old(compiler), *old(compile_meta)),
                Self::lowered(lowering(*old(compiler), *old(compile_meta)), self.deep_view()),
                outcome,
                lowering(*final(compiler), *final(compile_meta)),
            ),
    ;
}

impl Term {
    /// Emits the instruction that computes the term.
    pub fn evaluate(&self, compiler: &mut Compiler, compile_meta: &CompileMetadata) -> (outcome:
        Result<ValueRef, CompileError>)
        requires
            compile_meta.basic_block < old(compiler).deep_view().blocks.len(),
        ensures
            evaluated(
                lower_term(lowering(*old(compiler), *compile_meta), self.deep_view()),
                outcome,
                lowering(*final(compiler), *compile_meta),
            ),
            final(compiler).deep_view().blocks.len() == old(compiler).deep_view().blocks.len(),
    {
        let instruction = match self {
            Term::String(text) => Instruction::Text { value: text.clone() },
            Term::Number(value) => Instruction::Number { value: *value },
            Term::Ident(ident) => match compile_meta.function_scope.get(&ident.0) {
                Some(slot) => Instruction::Load { slot },
                None => return Err(CompileError::UnboundIdentifier),
            },
        };
        Ok(compiler.emit(compile_meta.basic_block, instruction))
    }
}

impl BinaryExpr {
    /// Emits the instructions that compute the chain from left to right.
    pub fn evaluate(&self, compiler: &mut Compiler, compile_meta: &CompileMetadata) -> (outcome:
        Result<ValueRef, CompileError>)
        requires
            compile_meta.basic_block < old(compiler).deep_view().blocks.len(),
        ensures
            evaluated(
                lower_math_chain(lowering(*old(compiler), *compile_meta), self.deep_view()),
                outcome,
                lowering(*final(compiler), *compile_meta),
            ),
            final(compiler).deep_view().blocks.len() == old(compiler).deep_view().blocks.len(),
    {
        let ghost terms = self.deep_view();
        let ghost expected = lower_math_chain(lowering(*compiler, *compile_meta), terms);
        let count: usize = self.terms.len();
        if count < 1 {
            return Err(CompileError::MalformedChain);
        }
        let mut left = match self.terms[0].operand.evaluate(compiler, compile_meta) {
            Ok(value) => value,
            Err(error) => return Err(error),
        };
        let mut i: usize = 1;
        while i < count
            invariant
                1 <= i <= count == self.terms.len(),
                terms == self.deep_view(),
                compile_meta.basic_block < compiler.deep_view().blocks.len(),
                compiler.deep_view().blocks.len() == old(compiler).deep_view().blocks.len(),
                expected == lower_math_chain(lowering(*old(compiler), *compile_meta), terms),
                lower_math_rest(
                    lowering(*compiler, *compile_meta),
                    left.deep_view(),
                    terms,
                    i as int,
                ) == expected,
            decreases count - i,
        {
            let operator = match self.terms[i - 1].operator {
                Some(operator) => operator,
                None => return Err(CompileError::MalformedChain),
            };
            let right = match self.terms[i].operand.evaluate(compiler, compile_meta) {
                Ok(value) => value,
                Err(error) => return Err(error),
            };
            left =
            compiler.emit(
                compile_meta.basic_block,
                Instruction::Arithmetic { operator, left, right },
            );
            i += 1;
        }
        if self.terms[count - 1].operator.is_some() {
            return Err(CompileError::MalformedChain);
        }
        Ok(left)
    }
}

impl ConditionalExpr {
    /// Emits the instructions that compute the chain from left to right.
    pub fn evaluate(&self, compiler: &mut Compiler, compile_meta: &CompileMetadata) -> (outcome:
        Result<ValueRef, CompileError>)
        requires
            compile_meta.basic_block < old(compiler).deep_view().blocks.len(),
        ensures
            evaluated(
                lower_condition_chain(lowering(*old(compiler), *compile_meta), self.deep_view()),
                outcome,
                lowering(*final(compiler), *compile_meta),
            ),
            final(compiler).deep_view().blocks.len() == old(compiler).deep_view().blocks.len(),
    {
        let ghost terms = self.deep_view();
        let ghost expected = lower_condition_chain(lowering(*compiler, *compile_meta), terms);
        let count: usize = self.terms.len();
        if count < 1 {
            return Err(CompileError::MalformedChain);
        }
        let mut left = match self.terms[0].operand.evaluate(compiler, compile_meta) {
            Ok(value) => value,
            Err(error) => return Err(error),
        };
        let mut i: usize = 1;
        while i < count
            invariant
                1 <= i <= count == self.terms.len(),
                terms == self.deep_view(),
                compile_meta.basic_block < compiler.deep_view().blocks.len(),
                compiler.deep_view().blocks.len() == old(compiler).deep_view().blocks.len(),
                expected == lower_condition_chain(lowering(*old(compiler), *compile_meta), terms),
                lower_condition_rest(
                    lowering(*compiler, *compile_meta),
                    left.deep_view(),
                    terms,
                    i as int,
                ) == expected,
            decreases count - i,
        {
            let operator = match self.terms[i - 1].operator {
                Some(operator) => operator,
                None => return Err(CompileError::MalformedChain),
            };
            let right = match self.terms[i].operand.evaluate(compiler, compile_meta) {
                Ok(value) => value,
                Err(error) => return Err(error),
            };
            left =
            compiler.emit(compile_meta.basic_block, Instruction::Compare { operator, left, right });
            i += 1;
        }
        if self.terms[count - 1].operator.is_some() {
            return Err(CompileError::MalformedChain);
        }
        Ok(left)
    }
}

impl Expr {
    /// Emits the instructions that compute the expression.
    pub fn evaluate(&self, compiler: &mut Compiler, compile_meta: &CompileMetadata) -> (outcome:
        Result<ValueRef, CompileError>)
        requires
            compile_meta.basic_block < old(compiler).deep_view().blocks.len(),
        ensures
            evaluated(
                lower_expr(lowering(*old(compiler), *compile_meta), self.deep_view()),
                outcome,
                lowering(*final(compiler), *compile_meta),
            ),
            final(compiler).deep_view().blocks.len() == old(compiler).deep_view().blocks.len(),
    {
        match self {
            Expr::Term(term) => term.evaluate(compiler, compile_meta),
            Expr::BinaryExpr(chain) => chain.evaluate(compiler, compile_meta),
            Expr::ConditionalExpr(chain) => chain.evaluate(compiler, compile_meta),
            Expr::IndexExpr(_) => Err(
                CompileError::Unsupported { construct: Construct::IndexExpr },
            ),
        }
    }
}

impl Compile for Variable {
    open spec fn lowered(s: Lowering, model: Self::V) -> Result<Lowering, CompileError> {
        lower_variable(s, model)
    }

    fn compile(&self, compiler: &mut Compiler, compile_meta: &mut CompileMetadata) -> (outcome:
        Result<(), CompileError>) {
        let ghost before = lowering(*compiler, *compile_meta);
        let value = match self.value.evaluate(compiler, compile_meta) {
            Ok(value) => value,
            Err(error) => return Err(error),
        };
        let slot = compiler.add_slot(self.declaration.ident.0.clone());
        compiler.emit(compile_meta.basic_block, Instruction::Store { slot, value });
        compile_meta.function_scope.insert(self.declaration.ident.0.clone(), slot);
        proof {
            lemma_variable_extends(before, self.deep_view());
            if before.is_sound() {
                lemma_variable_is_sound(before, self.deep_view());
            }
        }
        Ok(())
    }
}

impl Compile for Call {
    open spec fn lowered(s: Lowering, model: Self::V) -> Result<Lowering, CompileError> {
        lower_call(s, model)
    }

    fn compile(&self, compiler: &mut Compiler, compile_meta: &mut CompileMetadata) -> (outcome:
        Result<(), CompileError>) {
        let ghost before = lowering(*compiler, *compile_meta);
        let ghost args = self.args.deep_view();
        let ghost expected = lower_arguments(before, Seq::empty(), args, 0);
        let mut values: Vec<ValueRef> = Vec::new();
        let mut i: usize = 0;
        proof {
            assert(values.deep_view() =~= Seq::empty());
        }
        while i < self.args.len()
            invariant
                i <= self.args.len(),
                args == self.args.deep_view(),
                before == lowering(*old(compiler), *old(compile_meta)),
                before.wf(),
                *compile_meta == *old(compile_meta),
                expected == lower_arguments(before, Seq::empty(), args, 0),
                compile_meta.basic_block < compiler.deep_view().blocks.len(),
                lower_arguments(
                    lowering(*compiler, *compile_meta),
                    values.deep_view(),
                    args,
                    i as int,
                ) == expected,
            decreases self.args.len() - i,
        {
            let ghost collected = values.deep_view();
            let value = match self.args[i].evaluate(compiler, compile_meta) {
                Ok(value) => value,
                Err(error) => return Err(error),
            };
            values.push(value);
            proof {
                assert(values.deep_view() =~= collected.push(value.deep_view()));
            }
            i += 1;
        }
        compiler.emit(
            compile_meta.basic_block,
            Instruction::Call { callee: self.ident.0.clone(), args: values },
        );
        proof {
            lemma_call_extends(before, self.deep_view());
            if before.is_sound() {
                lemma_call_is_sound(before, self.deep_view());
            }
        }
        Ok(())
    }
}

impl Compile for Break {
    open spec fn lowered(s: Lowering, model: Self::V) -> Result<Lowering, CompileError> {
        lower_break(s)
    }

    fn compile(&self, compiler: &mut Compiler, compile_meta: &mut CompileMetadata) -> (outcome:
        Result<(), CompileError>) {
        let ghost before = lowering(*compiler, *compile_meta);
        let depth: usize = compile_meta.loop_exits.len();
        if depth == 0 {
            return Err(CompileError::BreakOutsideLoop);
        }
        let exit: usize = compile_meta.loop_exits[depth - 1];
        compiler.seal(compile_meta.basic_block, Terminator::Jump { target: exit });
        let fresh = compiler.add_block();
        compile_meta.basic_block = fresh;
        proof {
            lemma_break_extends(before);
            if before.is_sound() {
                lemma_break_is_sound(before);
            }
        }
        Ok(())
    }
}

impl Compile for Loop {
    open spec fn lowered(s: Lowering, model: Self::V) -> Result<Lowering, CompileError> {
        lower_loop(s, model)
    }

    fn compile(&self, compiler: &mut Compiler, compile_meta: &mut CompileMetadata) -> (outcome:
        Result<(), CompileError>)
        decreases self,
    {
        let ghost before = lowering(*compiler, *compile_meta);
        let ghost outer = compile_meta.loop_exits@;
        let header = compiler.add_block();
        let exit = compiler.add_block();
        compiler.seal(compile_meta.basic_block, Terminator::Jump { target: header });
        compile_meta.basic_block = header;
        compile_meta.loop_exits.push(exit);
        proof {
            assert(before.blocks.push(SpecBlock::empty()).push(SpecBlock::empty())
                =~= before.open_blocks(2).blocks);
            lemma_loop_begins(before);
            lemma_tree_view(self.body);
            assert(exits_view(compile_meta.loop_exits@) =~= exits_view(outer).push(exit as int));
        }
        match compile(compiler, &self.body, compile_meta) {
            Ok(()) => {},
            Err(error) => return Err(error),
        }
        let ghost inner = compile_meta.loop_exits@;
        compiler.seal(compile_meta.basic_block, Terminator::Jump { target: header });
        compile_meta.loop_exits.pop();
        compile_meta.basic_block = exit;
        proof {
            assert(exits_view(compile_meta.loop_exits@) =~= exits_view(inner).drop_last());
            lemma_loop_extends(before, self.deep_view());
            if before.is_sound() {
                lemma_loop_is_sound(before, self.deep_view());
            }
        }
        Ok(())
    }
}

impl IfBlock {
    /// Whether only the last branch, if any, is an `Else`.
    pub fn else_comes_last(&self) -> (holds: bool)
        ensures
            holds == else_comes_last(self.deep_view()),
    {
        let ghost branches = self.deep_view();
        let count: usize = self.if_nodes.len();
        if count == 0 {
            return true;
        }
        let mut i: usize = 0;
        while i < count - 1
            invariant
                1 <= count == self.if_nodes.len(),
                branches == self.deep_view(),
                branches.len() == self.if_nodes.len(),
                forall|k: int| 0 <= k < i ==> (#[trigger] branches[k]) is Case,
            decreases count - i,
        {
            match &self.if_nodes[i] {
                IfNode::Case(_) => {},
                IfNode::Else(_) => {
                    assert(!(branches[i as int] is Case));
                    return false;
                },
            }
            i += 1;
        }
        true
    }

    /// Sets aside the blocks of the chain: two for each case, one for an
    /// `Else`, and the merge block, whose number it returns.
    fn set_aside(&self, compiler: &mut Compiler) -> (merge: BlockId)
        requires
            else_comes_last(self.deep_view()),
        ensures
            merge == merge_block(old(compiler).deep_view().blocks.len() as int, self.deep_view()),
            final(compiler).deep_view().slots == old(compiler).deep_view().slots,
            final(compiler).deep_view().blocks == old(compiler).deep_view().blocks + empty_blocks(
                (merge - old(compiler).deep_view().blocks.len() + 1) as nat,
            ),
    {
        let ghost branches = self.deep_view();
        let ghost before = compiler.deep_view().blocks;
        let ghost base = before.len() as int;
        assert(before =~= before + empty_blocks(0));
        let mut i: usize = 0;
        while i < self.if_nodes.len()
            invariant
                i <= self.if_nodes.len(),
                branches == self.deep_view(),
                branches.len() == self.if_nodes.len(),
                else_comes_last(branches),
                before == old(compiler).deep_view().blocks,
                base == before.len(),
                compiler.deep_view().slots == old(compiler).deep_view().slots,
                compiler.deep_view().blocks.len() == branch_entry(base, branches, i as int) || (i
                    == branches.len() && compiler.deep_view().blocks.len() == merge_block(
                    base,
                    branches,
                )),
                compiler.deep_view().blocks.len() >= base,
                compiler.deep_view().blocks == before + empty_blocks(
                    (compiler.deep_view().blocks.len() - base) as nat,
                ),
            decreases self.if_nodes.len() - i,
        {
            let ghost opened = (compiler.deep_view().blocks.len() - base) as nat;
            compiler.add_block();
            assert((before + empty_blocks(opened)).push(SpecBlock::empty()) =~= before
                + empty_blocks(opened + 1));
            match &self.if_nodes[i] {
                IfNode::Case(_) => {
                    compiler.add_block();
                    assert((before + empty_blocks(opened + 1)).push(SpecBlock::empty()) =~= before
                        + empty_blocks(opened + 2));
                },
                IfNode::Else(_) => {
                    assert(!(branches[i as int] is Case));
                },
            }
            i += 1;
        }
        let ghost opened = (compiler.deep_view().blocks.len() - base) as nat;
        assert((before + empty_blocks(opened)).push(SpecBlock::empty()) =~= before + empty_blocks(
            opened + 1,
        ));
        compiler.add_block()
    }
}

impl Compile for IfBlock {
    open spec fn lowered(s: Lowering, model: Self::V) -> Result<Lowering, CompileError> {
        lower_if(s, model)
    }

    fn compile(&self, compiler: &mut Compiler, compile_meta: &mut CompileMetadata) -> (outcome:
        Result<(), CompileError>)
        decreases self,
    {
        let ghost before = lowering(*compiler, *compile_meta);
        let ghost branches = self.deep_view();
        let ghost expected = lower_if(before, branches);
        if !self.else_comes_last() {
            return Err(CompileError::MisplacedElse);
        }
        let count: usize = self.if_nodes.len();
        let base: usize = compiler.block_count();
        let merge = self.set_aside(compiler);
        let first: usize = if count > 0 {
            base
        } else {
            merge
        };
        proof {
            lemma_chain_begins(before, branches);
            lemma_open_blocks(before, (merge - base + 1) as nat);
        }
        compiler.seal(compile_meta.basic_block, Terminator::Jump { target: first });
        compile_meta.basic_block = first;
        proof {
            lemma_within_chain(before, lowering(*compiler, *compile_meta), branches, 0);
        }
        let mut i: usize = 0;
        while i < count
            invariant
                i <= count == self.if_nodes.len(),
                branches == self.deep_view(),
                base == before.blocks.len(),
                merge == merge_block(base as int, branches),
                before == lowering(*old(compiler), *old(compile_meta)),
                expected == lower_if(before, branches),
                else_comes_last(branches),
                within_chain(before, lowering(*compiler, *compile_meta), branches, i as int),
                lower_branches(lowering(*compiler, *compile_meta), branches, base as int, i as int)
                    == expected,
            decreases count - i,
        {
            let ghost start = lowering(*compiler, *compile_meta);
            proof {
                lemma_within_chain(before, start, branches, i as int);
            }
            let next: usize = if i + 1 < count {
                compile_meta.basic_block + 2
            } else {
                merge
            };
            match &self.if_nodes[i] {
                IfNode::Case(case) => {
                    let condition = match case.expr.evaluate(compiler, compile_meta) {
                        Ok(value) => value,
                        Err(error) => return Err(error),
                    };
                    let body: usize = compile_meta.basic_block + 1;
                    compiler.seal(
                        compile_meta.basic_block,
                        Terminator::Branch { condition, on_true: body, on_false: next },
                    );
                    compile_meta.basic_block = body;
                    proof {
                        lemma_case_begins(before, start, branches, i as int);
                        lemma_tree_view(case.body);
                        assert(lowering(*compiler, *compile_meta) == case_inside(
                            start,
                            branches,
                            base as int,
                            i as int,
                        ));
                    }
                    let ghost inside = lowering(*compiler, *compile_meta);
                    match compile(compiler, &case.body, compile_meta) {
                        Ok(()) => {},
                        Err(error) => return Err(error),
                    }
                    proof {
                        lemma_branch_body_done(
                            before,
                            start,
                            inside,
                            lowering(*compiler, *compile_meta),
                            branches,
                            i as int,
                        );
                    }
                    assert(compile_meta.basic_block < compiler.deep_view().blocks.len());
                },
                IfNode::Else(otherwise) => {
                    proof {
                        lemma_tree_view(otherwise.body);
                        assert(!(branches[i as int] is Case));
                    }
                    match compile(compiler, &otherwise.body, compile_meta) {
                        Ok(()) => {},
                        Err(error) => return Err(error),
                    }
                    proof {
                        lemma_within_chain_else(before, start, branches, i as int);
                        lemma_branch_body_done(
                            before,
                            start,
                            start,
                            lowering(*compiler, *compile_meta),
                            branches,
                            i as int,
                        );
                    }
                    assert(compile_meta.basic_block < compiler.deep_view().blocks.len());
                },
            }
            compiler.seal(compile_meta.basic_block, Terminator::Jump { target: merge });
            compile_meta.basic_block = next;
            i += 1;
        }
        proof {
            lemma_if_extends(before, branches);
            if before.is_sound() {
                lemma_if_is_sound(before, branches);
            }
        }
        Ok(())
    }
}

} // verus!

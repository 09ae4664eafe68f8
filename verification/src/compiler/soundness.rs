//! Every value is computed before it is used.
//!
//! A graph is sound if each operand of each instruction, and each condition
//! of each branch, is computed by an earlier instruction of the same block,
//! and if each slot that is read or written exists. Lowering keeps a sound
//! graph sound, so that a code generator can emit the blocks one by one and
//! find every operand at hand.
use crate::compiler::flow::{SpecBlock, SpecInstruction, SpecTerminator, SpecValueRef};
use crate::compiler::frames::{
    case_inside, lemma_branch_body_done, lemma_case_begins, lemma_chain_begins, lemma_expr_grows,
    lemma_grows_extends, lemma_loop_begins, lemma_node_extends, lemma_nodes_extend,
    lemma_open_blocks, lemma_term_grows, lemma_within_chain, lemma_within_chain_else, within_chain,
};
use crate::compiler::lowering::{
    branch_entry, case_body, lower_arguments, lower_branches, lower_break, lower_call,
    lower_condition_rest, lower_expr, lower_if, lower_loop, lower_math_rest, lower_node,
    lower_nodes, lower_term, lower_variable, merge_block, Lowering,
};
use crate::parser::{
    SpecBinaryExprTerm, SpecCall, SpecConditionExprTerm, SpecExpr, SpecIfNode, SpecNode, SpecTerm,
    SpecVariable,
};
use vstd::prelude::*;

verus! {

impl SpecInstruction {
    /// Whether the instruction yields a value.
    pub open spec fn yields(self) -> bool {
        !(self is Store) && !(self is Call)
    }
}

impl SpecBlock {
    /// Whether `value` is computed in this block, whose number is `block`,
    /// by one of its first `before` instructions.
    pub open spec fn computes(self, block: int, value: SpecValueRef, before: int) -> bool {
        &&& value.block == block
        &&& 0 <= value.index < before
        &&& value.index < self.instructions.len()
        &&& self.instructions[value.index].yields()
    }

    /// Whether the instruction at `index` uses only values that the block
    /// computes before it, and only slots among the first `slots`.
    pub open spec fn uses_what_exists(self, block: int, index: int, slots: int) -> bool {
        match self.instructions[index] {
            SpecInstruction::Number { .. } => true,
            SpecInstruction::Text { .. } => true,
            SpecInstruction::Load { slot } => 0 <= slot < slots,
            SpecInstruction::Store { slot, value } => 0 <= slot < slots && self.computes(
                block,
                value,
                index,
            ),
            SpecInstruction::Arithmetic { left, right, .. } => self.computes(block, left, index)
                && self.computes(block, right, index),
            SpecInstruction::Compare { left, right, .. } => self.computes(block, left, index)
                && self.computes(block, right, index),
            SpecInstruction::Call { args, .. } => forall|k: int|
                0 <= k < args.len() ==> self.computes(block, #[trigger] args[k], index),
        }
    }

    /// Whether every instruction of the block uses what exists, and the
    /// block branches, if it does, on a value that it computes.
    pub open spec fn is_sound(self, block: int, slots: int) -> bool {
        &&& forall|index: int|
            0 <= index < self.instructions.len() ==> #[trigger] self.uses_what_exists(
                block,
                index,
                slots,
            )
        &&& (self.terminator matches Some(SpecTerminator::Branch { condition, .. })
            ==> self.computes(block, condition, self.instructions.len() as int))
    }
}

impl Lowering {
    /// Whether every block is sound.
    pub open spec fn is_sound(self) -> bool {
        forall|b: int|
            0 <= b < self.blocks.len() ==> (#[trigger] self.blocks[b]).is_sound(
                b,
                self.slots.len() as int,
            )
    }

    /// Whether the cursor block computes `value`.
    pub open spec fn has(self, value: SpecValueRef) -> bool {
        self.blocks[self.cursor].computes(
            self.cursor,
            value,
            self.blocks[self.cursor].instructions.len() as int,
        )
    }
}

/// A sound block stays sound when an instruction that uses what exists is
/// added to it, and when slots are added.
pub proof fn lemma_block_stays_sound(
    block: SpecBlock,
    number: int,
    slots: int,
    instruction: SpecInstruction,
    more_slots: int,
)
    requires
        block.is_sound(number, slots),
        block.terminator is None,
        slots <= more_slots,
        (SpecBlock {
            instructions: block.instructions.push(instruction),
            terminator: None,
        }).uses_what_exists(number, block.instructions.len() as int, more_slots),
    ensures
        (SpecBlock {
            instructions: block.instructions.push(instruction),
            terminator: None,
        }).is_sound(number, more_slots),
{
    let longer = SpecBlock { instructions: block.instructions.push(instruction), terminator: None };
    assert forall|index: int|
        0 <= index < longer.instructions.len() implies
        #[trigger] longer.uses_what_exists(number, index, more_slots)
    by {
        if index < block.instructions.len() {
            assert(block.uses_what_exists(number, index, slots));
            assert(longer.instructions[index] == block.instructions[index]);
            match block.instructions[index] {
                SpecInstruction::Call { args, .. } => {
                    assert forall|k: int|
                        0 <= k < args.len() implies
                        longer.computes(number, #[trigger] args[k], index)
                    by {
                        assert(block.computes(number, args[k], index));
                    }
                },
                _ => {},
            }
        }
    }
}

/// A sound state stays sound when slots are added.
pub proof fn lemma_more_slots(s: Lowering, after: Lowering)
    requires
        s.is_sound(),
        after.blocks == s.blocks,
        s.slots.len() <= after.slots.len(),
    ensures
        after.is_sound(),
{
    assert forall|b: int|
        0 <= b < after.blocks.len() implies
        (#[trigger] after.blocks[b]).is_sound(b, after.slots.len() as int)
    by {
        let block = s.blocks[b];
        assert(block.is_sound(b, s.slots.len() as int));
        assert forall|index: int|
            0 <= index < block.instructions.len() implies
            #[trigger] block.uses_what_exists(b, index, after.slots.len() as int)
        by {
            assert(block.uses_what_exists(b, index, s.slots.len() as int));
        }
    }
}

/// A sound state stays sound when an instruction that uses what exists is
/// added at the cursor; the values that the cursor block computed are
/// still computed, and so is the value of the new instruction if it yields
/// one.
pub proof fn lemma_emit_is_sound(s: Lowering, instruction: SpecInstruction)
    requires
        s.wf(),
        s.is_sound(),
        (SpecBlock {
            instructions: s.blocks[s.cursor].instructions.push(instruction),
            terminator: None,
        }).uses_what_exists(
            s.cursor,
            s.blocks[s.cursor].instructions.len() as int,
            s.slots.len() as int,
        ),
    ensures
        s.emit(instruction).is_sound(),
        s.emit(instruction).wf(),
        forall|value: SpecValueRef| s.has(value) ==> #[trigger] s.emit(instruction).has(value),
        instruction.yields() ==> s.emit(instruction).has(s.next_value()),
{
    let after = s.emit(instruction);
    lemma_block_stays_sound(
        s.blocks[s.cursor],
        s.cursor,
        s.slots.len() as int,
        instruction,
        s.slots.len() as int,
    );
    assert forall|b: int|
        0 <= b < after.blocks.len() implies
        (#[trigger] after.blocks[b]).is_sound(b, after.slots.len() as int)
    by {
        if b != s.cursor {
            assert(after.blocks[b] == s.blocks[b]);
        }
    }
    assert forall|b: int|
        0 <= b < after.blocks.len() implies
        ((#[trigger] after.blocks[b]).terminator matches Some(terminator)
            ==> terminator.stays_within(after.blocks.len() as int))
    by {
        if b != s.cursor {
            assert(after.blocks[b] == s.blocks[b]);
        }
    }
    assert forall|i: int|
        0 <= i < after.loop_exits.len() implies
        {
            let exit = #[trigger] after.loop_exits[i];
            &&& 0 <= exit < after.blocks.len()
            &&& exit != after.cursor
            &&& after.blocks[exit].terminator is None
        }
    by {
        let exit = s.loop_exits[i];
        assert(after.blocks[exit] == s.blocks[exit]);
    }
}

/// A term keeps the state sound, and its value is computed.
pub proof fn lemma_term_is_sound(s: Lowering, term: SpecTerm)
    requires
        s.wf(),
        s.is_sound(),
        lower_term(s, term) is Ok,
    ensures
        ({
            let (after, value) = lower_term(s, term)->Ok_0;
            &&& after.wf()
            &&& after.is_sound()
            &&& after.has(value)
            &&& forall|earlier: SpecValueRef| s.has(earlier) ==> #[trigger] after.has(earlier)
        }),
{
    match term {
        SpecTerm::String(text) => lemma_emit_is_sound(s, SpecInstruction::Text { value: text }),
        SpecTerm::Number(value) => lemma_emit_is_sound(s, SpecInstruction::Number { value }),
        SpecTerm::Ident(name) => lemma_emit_is_sound(
            s,
            SpecInstruction::Load { slot: s.scope[name] },
        ),
    }
}

/// The rest of an arithmetic chain keeps the state sound, and its value is
/// computed if the value before it was.
pub proof fn lemma_math_rest_is_sound(
    s: Lowering,
    left: SpecValueRef,
    terms: Seq<SpecBinaryExprTerm>,
    from: int,
)
    requires
        s.wf(),
        s.is_sound(),
        s.has(left),
        1 <= from,
        lower_math_rest(s, left, terms, from) is Ok,
    ensures
        ({
            let (after, value) = lower_math_rest(s, left, terms, from)->Ok_0;
            &&& after.wf()
            &&& after.is_sound()
            &&& after.has(value)
        }),
    decreases terms.len() - from,
{
    if from < terms.len() {
        let operator = terms[from - 1].operator->Some_0;
        let (middle, right) = lower_term(s, terms[from].operand)->Ok_0;
        lemma_term_is_sound(s, terms[from].operand);
        lemma_term_grows(s, terms[from].operand);
        assert(middle.has(left));
        let instruction = SpecInstruction::Arithmetic { operator, left, right };
        lemma_emit_is_sound(middle, instruction);
        lemma_math_rest_is_sound(middle.emit(instruction), middle.next_value(), terms, from + 1);
    }
}

/// As [`lemma_math_rest_is_sound`], for comparisons.
pub proof fn lemma_condition_rest_is_sound(
    s: Lowering,
    left: SpecValueRef,
    terms: Seq<SpecConditionExprTerm>,
    from: int,
)
    requires
        s.wf(),
        s.is_sound(),
        s.has(left),
        1 <= from,
        lower_condition_rest(s, left, terms, from) is Ok,
    ensures
        ({
            let (after, value) = lower_condition_rest(s, left, terms, from)->Ok_0;
            &&& after.wf()
            &&& after.is_sound()
            &&& after.has(value)
        }),
    decreases terms.len() - from,
{
    if from < terms.len() {
        let operator = terms[from - 1].operator->Some_0;
        let (middle, right) = lower_term(s, terms[from].operand)->Ok_0;
        lemma_term_is_sound(s, terms[from].operand);
        lemma_term_grows(s, terms[from].operand);
        assert(middle.has(left));
        let instruction = SpecInstruction::Compare { operator, left, right };
        lemma_emit_is_sound(middle, instruction);
        lemma_condition_rest_is_sound(
            middle.emit(instruction),
            middle.next_value(),
            terms,
            from + 1,
        );
    }
}

/// An expression keeps the state sound, and its value is computed.
pub proof fn lemma_expr_is_sound(s: Lowering, expr: SpecExpr)
    requires
        s.wf(),
        s.is_sound(),
        lower_expr(s, expr) is Ok,
    ensures
        ({
            let (after, value) = lower_expr(s, expr)->Ok_0;
            &&& after.is_sound()
            &&& after.has(value)
        }),
{
    match expr {
        SpecExpr::Term(term) => lemma_term_is_sound(s, term),
        SpecExpr::BinaryExpr(terms) => {
            lemma_term_is_sound(s, terms[0].operand);
            let (middle, first) = lower_term(s, terms[0].operand)->Ok_0;
            lemma_math_rest_is_sound(middle, first, terms, 1);
        },
        SpecExpr::ConditionalExpr(terms) => {
            lemma_term_is_sound(s, terms[0].operand);
            let (middle, first) = lower_term(s, terms[0].operand)->Ok_0;
            lemma_condition_rest_is_sound(middle, first, terms, 1);
        },
        SpecExpr::IndexExpr(_) => {},
    }
}

/// A variable keeps the state sound.
pub proof fn lemma_variable_is_sound(s: Lowering, variable: SpecVariable)
    requires
        s.wf(),
        s.is_sound(),
        lower_variable(s, variable) is Ok,
    ensures
        lower_variable(s, variable)->Ok_0.is_sound(),
{
    lemma_expr_is_sound(s, variable.value);
    lemma_expr_grows(s, variable.value);
    let (middle, value) = lower_expr(s, variable.value)->Ok_0;
    lemma_grows_extends(s, middle);
    let name = variable.declaration.ident;
    let slot = middle.slots.len() as int;
    let roomier = Lowering { slots: middle.slots.push(name), ..middle };
    lemma_more_slots(middle, roomier);
    lemma_emit_is_sound(roomier, SpecInstruction::Store { slot, value });
    let after = lower_variable(s, variable)->Ok_0;
    assert(after.blocks == roomier.emit(SpecInstruction::Store { slot, value }).blocks);
    assert(after.slots == roomier.slots);
    lemma_more_slots(roomier.emit(SpecInstruction::Store { slot, value }), after);
}

/// The arguments of a call keep the state sound, and their values are
/// computed if the values before them were.
pub proof fn lemma_arguments_are_sound(
    s: Lowering,
    values: Seq<SpecValueRef>,
    args: Seq<SpecTerm>,
    from: int,
)
    requires
        s.wf(),
        s.is_sound(),
        0 <= from,
        forall|k: int| 0 <= k < values.len() ==> s.has(#[trigger] values[k]),
        lower_arguments(s, values, args, from) is Ok,
    ensures
        ({
            let (after, all) = lower_arguments(s, values, args, from)->Ok_0;
            &&& after.wf()
            &&& after.is_sound()
            &&& forall|k: int| 0 <= k < all.len() ==> after.has(#[trigger] all[k])
        }),
    decreases args.len() - from,
{
    if from < args.len() {
        lemma_term_is_sound(s, args[from]);
        let (middle, value) = lower_term(s, args[from])->Ok_0;
        let more = values.push(value);
        assert forall|k: int| 0 <= k < more.len() implies middle.has(#[trigger] more[k]) by {
            if k < values.len() {
                assert(s.has(values[k]));
            }
        }
        lemma_arguments_are_sound(middle, more, args, from + 1);
    }
}

/// A call keeps the state sound.
pub proof fn lemma_call_is_sound(s: Lowering, call: SpecCall)
    requires
        s.wf(),
        s.is_sound(),
        lower_call(s, call) is Ok,
    ensures
        lower_call(s, call)->Ok_0.is_sound(),
{
    lemma_arguments_are_sound(s, Seq::empty(), call.args, 0);
    let (middle, args) = lower_arguments(s, Seq::empty(), call.args, 0)->Ok_0;
    lemma_emit_is_sound(middle, SpecInstruction::Call { callee: call.ident, args });
}

/// A sound state stays sound when its cursor is closed with a jump, or with
/// a branch on a value that the cursor block computes, when empty blocks
/// are added, and when the cursor moves.
pub proof fn lemma_seal_is_sound(s: Lowering, terminator: SpecTerminator)
    requires
        0 <= s.cursor < s.blocks.len(),
        s.is_sound(),
        terminator matches SpecTerminator::Branch { condition, .. } ==> s.has(condition),
    ensures
        s.seal(terminator).is_sound(),
{
    let after = s.seal(terminator);
    assert forall|b: int|
        0 <= b < after.blocks.len() implies
        (#[trigger] after.blocks[b]).is_sound(b, after.slots.len() as int)
    by {
        let block = s.blocks[b];
        assert(block.is_sound(b, s.slots.len() as int));
        if b == s.cursor {
            let sealed = after.blocks[b];
            assert forall|index: int|
                0 <= index < sealed.instructions.len() implies
                #[trigger] sealed.uses_what_exists(b, index, s.slots.len() as int)
            by {
                assert(block.uses_what_exists(b, index, s.slots.len() as int));
                match block.instructions[index] {
                    SpecInstruction::Call { args, .. } => {
                        assert forall|k: int|
                            0 <= k < args.len() implies
                            sealed.computes(b, #[trigger] args[k], index)
                        by {
                            assert(block.computes(b, args[k], index));
                        }
                    },
                    _ => {},
                }
            }
        }
    }
}

/// Empty blocks at the end keep a sound state sound.
pub proof fn lemma_open_blocks_are_sound(s: Lowering, count: nat)
    requires
        s.is_sound(),
    ensures
        s.open_blocks(count).is_sound(),
{
    lemma_open_blocks(s, count);
    let after = s.open_blocks(count);
    assert forall|b: int|
        0 <= b < after.blocks.len() implies
        (#[trigger] after.blocks[b]).is_sound(b, after.slots.len() as int)
    by {
        if b < s.blocks.len() {
            assert(after.blocks[b] == s.blocks[b]);
            assert(s.blocks[b].is_sound(b, s.slots.len() as int));
        } else {
            assert(after.blocks[b] == SpecBlock::empty());
        }
    }
}

/// A break keeps the state sound.
pub proof fn lemma_break_is_sound(s: Lowering)
    requires
        s.wf(),
        s.is_sound(),
        lower_break(s) is Ok,
    ensures
        lower_break(s)->Ok_0.is_sound(),
{
    let sealed = s.seal(SpecTerminator::Jump { target: s.loop_exits.last() });
    lemma_seal_is_sound(s, SpecTerminator::Jump { target: s.loop_exits.last() });
    assert(sealed.open_block().blocks =~= sealed.open_blocks(1).blocks);
    lemma_open_blocks_are_sound(sealed, 1);
}

/// A loop keeps the state sound.
pub proof fn lemma_loop_is_sound(s: Lowering, body: Seq<SpecNode>)
    requires
        s.wf(),
        s.is_sound(),
        lower_loop(s, body) is Ok,
    ensures
        lower_loop(s, body)->Ok_0.is_sound(),
    decreases body, body.len() + 1,
{
    let header = s.blocks.len() as int;
    let exit = header + 1;
    lemma_loop_begins(s);
    lemma_open_blocks_are_sound(s, 2);
    lemma_open_blocks(s, 2);
    lemma_seal_is_sound(s.open_blocks(2), SpecTerminator::Jump { target: header });
    let inside = s.open_blocks(2).seal(SpecTerminator::Jump { target: header }).move_to(
        header,
    ).enter_loop(exit);
    assert(inside.blocks == s.open_blocks(2).seal(SpecTerminator::Jump { target: header }).blocks);
    lemma_nodes_extend(inside, body, 0);
    lemma_nodes_are_sound(inside, body, 0);
    let after = lower_nodes(inside, body, 0)->Ok_0;
    lemma_seal_is_sound(after, SpecTerminator::Jump { target: header });
}

/// A chain of conditions, from branch `index` on, keeps the state sound.
pub proof fn lemma_branches_are_sound(
    origin: Lowering,
    s: Lowering,
    branches: Seq<SpecIfNode>,
    index: int,
)
    requires
        within_chain(origin, s, branches, index),
        s.is_sound(),
        lower_branches(s, branches, origin.blocks.len() as int, index) is Ok,
    ensures
        lower_branches(s, branches, origin.blocks.len() as int, index)->Ok_0.is_sound(),
    decreases branches, branches.len() - index,
{
    let base = origin.blocks.len() as int;
    let merge = merge_block(base, branches);
    lemma_within_chain(origin, s, branches, index);
    if index < branches.len() {
        let next = branch_entry(base, branches, index + 1);
        let inside = match branches[index] {
            SpecIfNode::Case(_) => case_inside(s, branches, base, index),
            SpecIfNode::Else(_) => s,
        };
        let body = match branches[index] {
            SpecIfNode::Case(case) => case.body,
            SpecIfNode::Else(body) => body,
        };
        match branches[index] {
            SpecIfNode::Case(case) => {
                lemma_case_begins(origin, s, branches, index);
                lemma_expr_grows(s, case.expr);
                lemma_expr_is_sound(s, case.expr);
                let (evaluated, condition) = lower_expr(s, case.expr)->Ok_0;
                lemma_seal_is_sound(
                    evaluated,
                    SpecTerminator::Branch {
                        condition,
                        on_true: case_body(base, index),
                        on_false: next,
                    },
                );
            },
            SpecIfNode::Else(_) => {
                lemma_within_chain_else(origin, s, branches, index);
            },
        }
        lemma_nodes_extend(inside, body, 0);
        lemma_nodes_are_sound(inside, body, 0);
        let after = lower_nodes(inside, body, 0)->Ok_0;
        lemma_branch_body_done(origin, s, inside, after, branches, index);
        lemma_seal_is_sound(after, SpecTerminator::Jump { target: merge });
        let following = after.seal(SpecTerminator::Jump { target: merge }).move_to(next);
        assert(following.blocks == after.seal(SpecTerminator::Jump { target: merge }).blocks);
        lemma_branches_are_sound(origin, following, branches, index + 1);
    }
}

/// A chain of conditions keeps the state sound.
pub proof fn lemma_if_is_sound(s: Lowering, branches: Seq<SpecIfNode>)
    requires
        s.wf(),
        s.is_sound(),
        lower_if(s, branches) is Ok,
    ensures
        lower_if(s, branches)->Ok_0.is_sound(),
    decreases branches, branches.len() + 1,
{
    let base = s.blocks.len() as int;
    let merge = merge_block(base, branches);
    let first = branch_entry(base, branches, 0);
    lemma_chain_begins(s, branches);
    let opened = s.open_blocks((merge - base + 1) as nat);
    lemma_open_blocks(s, (merge - base + 1) as nat);
    lemma_open_blocks_are_sound(s, (merge - base + 1) as nat);
    lemma_seal_is_sound(opened, SpecTerminator::Jump { target: first });
    let start = opened.seal(SpecTerminator::Jump { target: first }).move_to(first);
    assert(start.blocks == opened.seal(SpecTerminator::Jump { target: first }).blocks);
    lemma_branches_are_sound(s, start, branches, 0);
}

/// A statement keeps the state sound.
pub proof fn lemma_node_is_sound(s: Lowering, node: SpecNode)
    requires
        s.wf(),
        s.is_sound(),
        lower_node(s, node) is Ok,
    ensures
        lower_node(s, node)->Ok_0.is_sound(),
    decreases node, 0nat,
{
    match node {
        SpecNode::Loop(body) => lemma_loop_is_sound(s, body),
        SpecNode::Break => lemma_break_is_sound(s),
        SpecNode::Call(call) => lemma_call_is_sound(s, call),
        SpecNode::Variable(variable) => lemma_variable_is_sound(s, variable),
        SpecNode::If(branches) => lemma_if_is_sound(s, branches),
        _ => {},
    }
}

/// Lowering keeps a sound state sound: in the graph that a sequence of
/// statements is lowered to, every value is computed before it is used.
pub proof fn lemma_nodes_are_sound(s: Lowering, tree: Seq<SpecNode>, from: int)
    requires
        s.wf(),
        s.is_sound(),
        0 <= from,
        lower_nodes(s, tree, from) is Ok,
    ensures
        lower_nodes(s, tree, from)->Ok_0.is_sound(),
    decreases tree, tree.len() - from,
{
    if from < tree.len() {
        lemma_node_extends(s, tree[from]);
        lemma_node_is_sound(s, tree[from]);
        lemma_nodes_are_sound(lower_node(s, tree[from])->Ok_0, tree, from + 1);
    }
}

} // verus!

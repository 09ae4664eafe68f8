//! What every lowering leaves as it was.
//!
//! Lowering only ever adds: instructions at the cursor, blocks at the end,
//! slots at the end. The lemmas here prove that for each piece of the
//! tree; the compiler relies on them to know that the blocks it has set
//! aside are still untouched when it comes back to them.
use crate::compiler::flow::{SpecBlock, SpecInstruction, SpecTerminator, SpecValueRef};
use crate::compiler::lowering::{
    branch_entry, case_body, else_comes_last, lower_arguments, lower_branches, lower_break,
    lower_call, lower_condition_rest, lower_expr, lower_if, lower_loop, lower_math_rest, lower_node,
    lower_nodes, lower_term, lower_variable, merge_block, Lowering,
};
use crate::parser::{
    SpecBinaryExprTerm, SpecCall, SpecConditionExprTerm, SpecExpr, SpecIfNode, SpecNode, SpecTerm,
    SpecVariable,
};
use vstd::prelude::*;

verus! {

impl Lowering {
    /// `after` differs from `self` by instructions added at the cursor, and
    /// in nothing else.
    pub open spec fn grows_to(self, after: Lowering) -> bool {
        &&& after.cursor == self.cursor
        &&& after.slots == self.slots
        &&& after.scope == self.scope
        &&& after.loop_exits == self.loop_exits
        &&& after.blocks.len() == self.blocks.len()
        &&& forall|b: int|
            0 <= b < self.blocks.len() && b != self.cursor ==> #[trigger] after.blocks[b]
                == self.blocks[b]
        &&& after.blocks[self.cursor].terminator == self.blocks[self.cursor].terminator
        &&& self.blocks[self.cursor].instructions.is_prefix_of(
            after.blocks[self.cursor].instructions,
        )
    }

    /// `after` continues `self`: it is well-formed; every block of `self`
    /// but the cursor is as it was; the cursor of `self` has kept its
    /// instructions, and is either still the cursor or closed; every new
    /// block but the new cursor is closed; the slots of `self` are as they
    /// were; and the surrounding loops are the same.
    pub open spec fn extends_to(self, after: Lowering) -> bool {
        &&& after.wf()
        &&& self.blocks.len() <= after.blocks.len()
        &&& forall|b: int|
            0 <= b < self.blocks.len() && b != self.cursor ==> #[trigger] after.blocks[b]
                == self.blocks[b]
        &&& self.blocks[self.cursor].instructions.is_prefix_of(
            after.blocks[self.cursor].instructions,
        )
        &&& (after.cursor == self.cursor || (self.blocks.len() <= after.cursor
            && after.blocks[self.cursor].terminator is Some))
        &&& forall|b: int|
            self.blocks.len() <= b < after.blocks.len() && b != after.cursor ==> (
            #[trigger] after.blocks[b]).terminator is Some
        &&& self.slots.is_prefix_of(after.slots)
        &&& after.loop_exits == self.loop_exits
    }
}

/// Adding instructions at the cursor of a well-formed state continues it.
pub proof fn lemma_grows_extends(s: Lowering, after: Lowering)
    requires
        s.wf(),
        s.grows_to(after),
    ensures
        s.extends_to(after),
{
    assert forall|b: int|
        0 <= b < after.blocks.len() implies
        ((#[trigger] after.blocks[b]).terminator matches Some(terminator)
            ==> terminator.stays_within(after.blocks.len() as int))
    by {
        if b != s.cursor {
            assert(after.blocks[b] == s.blocks[b]);
        }
    }
    assert forall|i: int|
        0 <= i < after.loop_exits.len() implies
        {
            let exit = #[trigger] after.loop_exits[i];
            &&& 0 <= exit < after.blocks.len()
            &&& exit != after.cursor
            &&& after.blocks[exit].terminator is None
        }
    by {
        let exit = s.loop_exits[i];
        assert(after.blocks[exit] == s.blocks[exit]);
    }
}

/// Growing is transitive.
pub proof fn lemma_grows_twice(s: Lowering, middle: Lowering, after: Lowering)
    requires
        0 <= s.cursor < s.blocks.len(),
        s.grows_to(middle),
        middle.grows_to(after),
    ensures
        s.grows_to(after),
{
    assert forall|b: int|
        0 <= b < s.blocks.len() && b != s.cursor implies #[trigger] after.blocks[b] == s.blocks[b]
    by {
        assert(middle.blocks[b] == s.blocks[b]);
    }
}

/// One more instruction at the cursor grows the state.
pub proof fn lemma_emit_grows(s: Lowering, instruction: SpecInstruction)
    requires
        0 <= s.cursor < s.blocks.len(),
    ensures
        s.grows_to(s.emit(instruction)),
        s.emit(instruction).blocks[s.cursor].instructions == s.blocks[s.cursor].instructions.push(
            instruction,
        ),
{
}

/// A term grows the state by the one instruction that computes it.
pub proof fn lemma_term_grows(s: Lowering, term: SpecTerm)
    requires
        0 <= s.cursor < s.blocks.len(),
        lower_term(s, term) is Ok,
    ensures
        ({
            let (after, value) = lower_term(s, term)->Ok_0;
            &&& s.grows_to(after)
            &&& value == s.next_value()
            &&& after.blocks[s.cursor].instructions.len() == s.blocks[s.cursor].instructions.len()
                + 1
        }),
{
}

/// The rest of an arithmetic chain grows the state, and its value is
/// `left` or computed by an instruction that the rest has added.
pub proof fn lemma_math_rest_grows(
    s: Lowering,
    left: SpecValueRef,
    terms: Seq<SpecBinaryExprTerm>,
    from: int,
)
    requires
        0 <= s.cursor < s.blocks.len(),
        1 <= from,
        lower_math_rest(s, left, terms, from) is Ok,
    ensures
        ({
            let (after, value) = lower_math_rest(s, left, terms, from)->Ok_0;
            &&& s.grows_to(after)
            &&& value == left || (value.block == s.cursor
                && s.blocks[s.cursor].instructions.len() <= value.index
                < after.blocks[s.cursor].instructions.len())
        }),
    decreases terms.len() - from,
{
    if from < terms.len() {
        let operator = terms[from - 1].operator->Some_0;
        let (middle, right) = lower_term(s, terms[from].operand)->Ok_0;
        lemma_term_grows(s, terms[from].operand);
        let next = middle.emit(SpecInstruction::Arithmetic { operator, left, right });
        lemma_emit_grows(middle, SpecInstruction::Arithmetic { operator, left, right });
        lemma_grows_twice(s, middle, next);
        lemma_math_rest_grows(next, middle.next_value(), terms, from + 1);
        let (after, value) = lower_math_rest(next, middle.next_value(), terms, from + 1)->Ok_0;
        lemma_grows_twice(s, next, after);
    }
}

/// As [`lemma_math_rest_grows`], for comparisons.
pub proof fn lemma_condition_rest_grows(
    s: Lowering,
    left: SpecValueRef,
    terms: Seq<SpecConditionExprTerm>,
    from: int,
)
    requires
        0 <= s.cursor < s.blocks.len(),
        1 <= from,
        lower_condition_rest(s, left, terms, from) is Ok,
    ensures
        ({
            let (after, value) = lower_condition_rest(s, left, terms, from)->Ok_0;
            &&& s.grows_to(after)
            &&& value == left || (value.block == s.cursor
                && s.blocks[s.cursor].instructions.len() <= value.index
                < after.blocks[s.cursor].instructions.len())
        }),
    decreases terms.len() - from,
{
    if from < terms.len() {
        let operator = terms[from - 1].operator->Some_0;
        let (middle, right) = lower_term(s, terms[from].operand)->Ok_0;
        lemma_term_grows(s, terms[from].operand);
        let next = middle.emit(SpecInstruction::Compare { operator, left, right });
        lemma_emit_grows(middle, SpecInstruction::Compare { operator, left, right });
        lemma_grows_twice(s, middle, next);
        lemma_condition_rest_grows(next, middle.next_value(), terms, from + 1);
        let (after, value) = lower_condition_rest(next, middle.next_value(), terms, from + 1)->Ok_0;
        lemma_grows_twice(s, next, after);
    }
}

/// An expression grows the state, and its value is computed by an
/// instruction that the expression has added at the cursor.
pub proof fn lemma_expr_grows(s: Lowering, expr: SpecExpr)
    requires
        0 <= s.cursor < s.blocks.len(),
        lower_expr(s, expr) is Ok,
    ensures
        ({
            let (after, value) = lower_expr(s, expr)->Ok_0;
            &&& s.grows_to(after)
            &&& value.block == s.cursor
            &&& s.blocks[s.cursor].instructions.len() <= value.index
                < after.blocks[s.cursor].instructions.len()
        }),
{
    match expr {
        SpecExpr::Term(term) => {
            lemma_term_grows(s, term);
        },
        SpecExpr::BinaryExpr(terms) => {
            lemma_term_grows(s, terms[0].operand);
            let (middle, first) = lower_term(s, terms[0].operand)->Ok_0;
            lemma_math_rest_grows(middle, first, terms, 1);
            let (after, value) = lower_math_rest(middle, first, terms, 1)->Ok_0;
            lemma_grows_twice(s, middle, after);
        },
        SpecExpr::ConditionalExpr(terms) => {
            lemma_term_grows(s, terms[0].operand);
            let (middle, first) = lower_term(s, terms[0].operand)->Ok_0;
            lemma_condition_rest_grows(middle, first, terms, 1);
            let (after, value) = lower_condition_rest(middle, first, terms, 1)->Ok_0;
            lemma_grows_twice(s, middle, after);
        },
        SpecExpr::IndexExpr(_) => {},
    }
}

/// The arguments of a call grow the state, one value for each argument.
pub proof fn lemma_arguments_grow(
    s: Lowering,
    values: Seq<SpecValueRef>,
    args: Seq<SpecTerm>,
    from: int,
)
    requires
        0 <= s.cursor < s.blocks.len(),
        0 <= from <= args.len(),
        lower_arguments(s, values, args, from) is Ok,
    ensures
        ({
            let (after, all) = lower_arguments(s, values, args, from)->Ok_0;
            &&& s.grows_to(after)
            &&& all.len() == values.len() + args.len() - from
        }),
    decreases args.len() - from,
{
    if from < args.len() {
        lemma_term_grows(s, args[from]);
        let (middle, value) = lower_term(s, args[from])->Ok_0;
        lemma_arguments_grow(middle, values.push(value), args, from + 1);
        let (after, all) = lower_arguments(middle, values.push(value), args, from + 1)->Ok_0;
        lemma_grows_twice(s, middle, after);
    }
}

/// A call continues the state.
pub proof fn lemma_call_extends(s: Lowering, call: SpecCall)
    requires
        s.wf(),
        lower_call(s, call) is Ok,
    ensures
        s.grows_to(lower_call(s, call)->Ok_0),
        s.extends_to(lower_call(s, call)->Ok_0),
{
    lemma_arguments_grow(s, Seq::empty(), call.args, 0);
    let (middle, args) = lower_arguments(s, Seq::empty(), call.args, 0)->Ok_0;
    let instruction = SpecInstruction::Call { callee: call.ident, args };
    lemma_emit_grows(middle, instruction);
    lemma_grows_twice(s, middle, middle.emit(instruction));
    lemma_grows_extends(s, middle.emit(instruction));
}

/// A variable continues the state: the cursor stays, one slot is added, and
/// the name stands for that slot.
pub proof fn lemma_variable_extends(s: Lowering, variable: SpecVariable)
    requires
        s.wf(),
        lower_variable(s, variable) is Ok,
    ensures
        ({
            let after = lower_variable(s, variable)->Ok_0;
            &&& s.extends_to(after)
            &&& after.cursor == s.cursor
            &&& after.blocks.len() == s.blocks.len()
            &&& after.slots == s.slots.push(variable.declaration.ident)
            &&& after.scope == s.scope.insert(variable.declaration.ident, s.slots.len() as int)
        }),
{
    lemma_expr_grows(s, variable.value);
    let (middle, value) = lower_expr(s, variable.value)->Ok_0;
    let slot = middle.slots.len() as int;
    let stored = middle.emit(SpecInstruction::Store { slot, value });
    lemma_emit_grows(middle, SpecInstruction::Store { slot, value });
    lemma_grows_twice(s, middle, stored);
    lemma_grows_extends(s, stored);
    let after = lower_variable(s, variable)->Ok_0;
    assert(after.blocks == stored.blocks);
    assert forall|name: Seq<char>|
        after.scope.contains_key(name) implies 0 <= #[trigger] after.scope[name] < after.slots.len()
    by {
        if name != variable.declaration.ident {
            assert(s.scope.contains_key(name));
        }
    }
}

/// Adding blocks keeps what is there and appends empty blocks.
pub proof fn lemma_open_blocks(s: Lowering, count: nat)
    ensures
        ({
            let after = s.open_blocks(count);
            &&& after.blocks.len() == s.blocks.len() + count
            &&& after.cursor == s.cursor
            &&& after.slots == s.slots
            &&& after.scope == s.scope
            &&& after.loop_exits == s.loop_exits
            &&& forall|b: int| 0 <= b < s.blocks.len() ==> #[trigger] after.blocks[b] == s.blocks[b]
            &&& forall|b: int|
                s.blocks.len() <= b < after.blocks.len() ==> #[trigger] after.blocks[b]
                    == SpecBlock::empty()
        }),
{
}

/// A break continues the state.
pub proof fn lemma_break_extends(s: Lowering)
    requires
        s.wf(),
        lower_break(s) is Ok,
    ensures
        s.extends_to(lower_break(s)->Ok_0),
{
    let after = lower_break(s)->Ok_0;
    let exit = s.loop_exits.last();
    assert(exit == s.loop_exits[s.loop_exits.len() - 1]);
    assert forall|b: int|
        0 <= b < after.blocks.len() implies
        ((#[trigger] after.blocks[b]).terminator matches Some(terminator)
            ==> terminator.stays_within(after.blocks.len() as int))
    by {
        if b < s.blocks.len() && b != s.cursor {
            assert(after.blocks[b] == s.blocks[b]);
        }
    }
    assert forall|i: int|
        0 <= i < after.loop_exits.len() implies
        {
            let exit = #[trigger] after.loop_exits[i];
            &&& 0 <= exit < after.blocks.len()
            &&& exit != after.cursor
            &&& after.blocks[exit].terminator is None
        }
    by {
        let exit = s.loop_exits[i];
        assert(after.blocks[exit] == s.blocks[exit]);
    }
}

/// Whether `s` is the state at the start of branch `index` of a chain of
/// conditions whose lowering began in state `origin`: the blocks of the
/// branches before it are closed, those of the branches from it on and the
/// merge block are still empty, and all else is as lowering leaves it.
#[verifier::opaque]
pub open spec fn within_chain(
    origin: Lowering,
    s: Lowering,
    branches: Seq<SpecIfNode>,
    index: int,
) -> bool {
    let base = origin.blocks.len() as int;
    let merge = merge_block(base, branches);
    &&& origin.wf()
    &&& else_comes_last(branches)
    &&& 0 <= index <= branches.len()
    &&& s.wf()
    &&& s.cursor == branch_entry(base, branches, index)
    &&& merge < s.blocks.len()
    &&& forall|b: int|
        0 <= b < base && b != origin.cursor ==> #[trigger] s.blocks[b] == origin.blocks[b]
    &&& s.blocks[origin.cursor] == SpecBlock {
        instructions: origin.blocks[origin.cursor].instructions,
        terminator: Some(SpecTerminator::Jump { target: branch_entry(base, branches, 0) }),
    }
    &&& forall|b: int| s.cursor <= b <= merge ==> #[trigger] s.blocks[b] == SpecBlock::empty()
    &&& forall|b: int| base <= b < s.cursor ==> (#[trigger] s.blocks[b]).terminator is Some
    &&& forall|b: int| merge < b < s.blocks.len() ==> (#[trigger] s.blocks[b]).terminator is Some
    &&& origin.slots.is_prefix_of(s.slots)
    &&& s.loop_exits == origin.loop_exits
}

/// The state in which the body of a branch is lowered, and the state in
/// which the next branch starts once that body is done, are as
/// [`within_chain`] says.
pub proof fn lemma_branch_body_done(
    origin: Lowering,
    s: Lowering,
    inside: Lowering,
    after: Lowering,
    branches: Seq<SpecIfNode>,
    index: int,
)
    requires
        within_chain(origin, s, branches, index),
        index < branches.len(),
        inside.wf(),
        inside.blocks.len() == s.blocks.len(),
        inside.slots == s.slots,
        inside.loop_exits == s.loop_exits,
        s.cursor <= inside.cursor <= s.cursor + 1,
        inside.cursor + 1 == branch_entry(origin.blocks.len() as int, branches, index + 1),
        forall|b: int|
            0 <= b < s.blocks.len() && b != s.cursor ==> #[trigger] inside.blocks[b] == s.blocks[b],
        inside.cursor != s.cursor ==> inside.blocks[s.cursor].terminator is Some,
        inside.extends_to(after),
    ensures
        within_chain(
            origin,
            after.seal(
                SpecTerminator::Jump {
                    target: merge_block(origin.blocks.len() as int, branches),
                },
            ).move_to(branch_entry(origin.blocks.len() as int, branches, index + 1)),
            branches,
            index + 1,
        ),
{
    reveal(within_chain);
    let base = origin.blocks.len() as int;
    let merge = merge_block(base, branches);
    let next = branch_entry(base, branches, index + 1);
    let t = after.seal(SpecTerminator::Jump { target: merge }).move_to(next);
    assert(branches[index] is Case || index == branches.len() - 1);
    assert(next <= merge);
    assert(inside.cursor < next);
    assert(after.cursor != next);
    assert(forall|b: int|
        0 <= b < inside.blocks.len() && b != inside.cursor ==> #[trigger] after.blocks[b]
            == inside.blocks[b]);
    assert forall|b: int|
        next <= b <= merge implies #[trigger] t.blocks[b] == SpecBlock::empty()
    by {
        assert(after.blocks[b] == inside.blocks[b]);
        assert(inside.blocks[b] == s.blocks[b]);
    }
    assert forall|b: int|
        0 <= b < base && b != origin.cursor implies #[trigger] t.blocks[b] == origin.blocks[b]
    by {
        assert(after.blocks[b] == inside.blocks[b]);
        assert(inside.blocks[b] == s.blocks[b]);
    }
    assert(t.blocks[origin.cursor] == s.blocks[origin.cursor]) by {
        assert(after.blocks[origin.cursor] == inside.blocks[origin.cursor]);
        assert(inside.blocks[origin.cursor] == s.blocks[origin.cursor]);
    }
    assert forall|b: int| base <= b < next implies (#[trigger] t.blocks[b]).terminator is Some by {
        if b == after.cursor {
        } else if b == inside.cursor {
        } else {
            assert(after.blocks[b] == inside.blocks[b]);
            if b != s.cursor {
                assert(b < s.cursor);
                assert(inside.blocks[b] == s.blocks[b]);
            }
        }
    }
    assert forall|b: int|
        merge < b < t.blocks.len() implies (#[trigger] t.blocks[b]).terminator is Some
    by {
        if b == after.cursor {
        } else if b < inside.blocks.len() {
            assert(after.blocks[b] == inside.blocks[b]);
            assert(inside.blocks[b] == s.blocks[b]);
        } else {
        }
    }
    assert forall|b: int|
        0 <= b < t.blocks.len() implies
        ((#[trigger] t.blocks[b]).terminator matches Some(terminator)
            ==> terminator.stays_within(t.blocks.len() as int))
    by {
        if b != after.cursor {
            assert(t.blocks[b] == after.blocks[b]);
        }
    }
    assert forall|i: int|
        0 <= i < t.loop_exits.len() implies
        {
            let exit = #[trigger] t.loop_exits[i];
            &&& 0 <= exit < t.blocks.len()
            &&& exit != t.cursor
            &&& t.blocks[exit].terminator is None
        }
    by {
        let exit = origin.loop_exits[i];
        assert(0 <= exit < base);
        assert(after.loop_exits[i] == exit);
    }
    assert(t.blocks[next] == SpecBlock::empty());
}

/// What the compiler needs to know of the state at the start of a branch:
/// it is well-formed, its cursor is the block in which the branch starts,
/// and the blocks up to the merge block exist.
pub proof fn lemma_within_chain(
    origin: Lowering,
    s: Lowering,
    branches: Seq<SpecIfNode>,
    index: int,
)
    requires
        within_chain(origin, s, branches, index),
    ensures
        origin.wf(),
        s.wf(),
        0 <= index <= branches.len(),
        s.cursor == branch_entry(origin.blocks.len() as int, branches, index),
        s.cursor <= merge_block(origin.blocks.len() as int, branches) < s.blocks.len(),
        index < branches.len() ==> branch_entry(origin.blocks.len() as int, branches, index + 1)
            <= merge_block(origin.blocks.len() as int, branches),
        index < branches.len() && branches[index] is Case ==> s.cursor + 2 == branch_entry(
            origin.blocks.len() as int,
            branches,
            index + 1,
        ),
{
    reveal(within_chain);
    if index < branches.len() {
        assert(branches[index] is Case || index == branches.len() - 1);
    }
}

/// An `Else` is the last branch of its chain, and the merge block is the
/// block after it.
pub proof fn lemma_within_chain_else(
    origin: Lowering,
    s: Lowering,
    branches: Seq<SpecIfNode>,
    index: int,
)
    requires
        within_chain(origin, s, branches, index),
        index < branches.len(),
        branches[index] is Else,
    ensures
        s.wf(),
        s.cursor + 1 == branch_entry(origin.blocks.len() as int, branches, index + 1),
{
    reveal(within_chain);
    assert(branches[index] is Case || index == branches.len() - 1);
}

/// The state in which the body of a case is lowered, once its condition
/// is evaluated and the branch on it is in place.
pub open spec fn case_inside(
    s: Lowering,
    branches: Seq<SpecIfNode>,
    base: int,
    index: int,
) -> Lowering {
    let (evaluated, condition) = lower_expr(s, branches[index]->Case_0.expr)->Ok_0;
    evaluated.seal(
        SpecTerminator::Branch {
            condition,
            on_true: case_body(base, index),
            on_false: branch_entry(base, branches, index + 1),
        },
    ).move_to(case_body(base, index))
}

/// The state in which the body of a case is lowered is well-formed, and
/// differs from the state at the start of the case in the block of the
/// condition alone.
pub proof fn lemma_case_begins(origin: Lowering, s: Lowering, branches: Seq<SpecIfNode>, index: int)
    requires
        within_chain(origin, s, branches, index),
        index < branches.len(),
        branches[index] is Case,
        lower_expr(s, branches[index]->Case_0.expr) is Ok,
    ensures
        ({
            let inside = case_inside(s, branches, origin.blocks.len() as int, index);
            &&& inside.wf()
            &&& inside.blocks.len() == s.blocks.len()
            &&& inside.slots == s.slots
            &&& inside.scope == s.scope
            &&& inside.loop_exits == s.loop_exits
            &&& inside.cursor == s.cursor + 1
            &&& inside.cursor + 1 == branch_entry(origin.blocks.len() as int, branches, index + 1)
            &&& forall|b: int|
                0 <= b < s.blocks.len() && b != s.cursor ==> #[trigger] inside.blocks[b]
                    == s.blocks[b]
            &&& inside.blocks[s.cursor].terminator is Some
        }),
{
    reveal(within_chain);
    let base = origin.blocks.len() as int;
    let next = branch_entry(base, branches, index + 1);
    let case = branches[index]->Case_0;
    lemma_expr_grows(s, case.expr);
    let (evaluated, condition) = lower_expr(s, case.expr)->Ok_0;
    lemma_grows_extends(s, evaluated);
    let body = case_body(base, index);
    let inside = evaluated.seal(
        SpecTerminator::Branch { condition, on_true: body, on_false: next },
    ).move_to(body);
    assert(inside == case_inside(s, branches, base, index));
    assert(evaluated.blocks[body] == s.blocks[body]);
    assert(inside.blocks[body] == SpecBlock::empty());
    assert forall|b: int|
        0 <= b < inside.blocks.len() implies
        ((#[trigger] inside.blocks[b]).terminator matches Some(terminator)
            ==> terminator.stays_within(inside.blocks.len() as int))
    by {
        if b != s.cursor {
            assert(inside.blocks[b] == evaluated.blocks[b]);
        }
    }
    assert forall|i: int|
        0 <= i < inside.loop_exits.len() implies
        {
            let exit = #[trigger] inside.loop_exits[i];
            &&& 0 <= exit < inside.blocks.len()
            &&& exit != inside.cursor
            &&& inside.blocks[exit].terminator is None
        }
    by {
        let exit = origin.loop_exits[i];
        assert(0 <= exit < base);
        assert(evaluated.loop_exits[i] == exit);
    }
    assert forall|b: int|
        0 <= b < s.blocks.len() && b != s.cursor implies #[trigger] inside.blocks[b] == s.blocks[b]
    by {
        assert(evaluated.blocks[b] == s.blocks[b]);
    }
}

/// A chain of conditions, from branch `index` on, continues the state in
/// which the chain began, and ends with the cursor at the merge block.
pub proof fn lemma_branches_extend(
    origin: Lowering,
    s: Lowering,
    branches: Seq<SpecIfNode>,
    index: int,
)
    requires
        within_chain(origin, s, branches, index),
        lower_branches(s, branches, origin.blocks.len() as int, index) is Ok,
    ensures
        origin.extends_to(lower_branches(s, branches, origin.blocks.len() as int, index)->Ok_0),
        lower_branches(s, branches, origin.blocks.len() as int, index)->Ok_0.cursor == merge_block(
            origin.blocks.len() as int,
            branches,
        ),
    decreases branches, branches.len() - index,
{
    reveal(within_chain);
    let base = origin.blocks.len() as int;
    let merge = merge_block(base, branches);
    if index >= branches.len() {
        assert(s.cursor == merge);
        assert forall|b: int| base <= b < s.blocks.len() && b != s.cursor implies (
        #[trigger] s.blocks[b]).terminator is Some by {}
    } else {
        let next = branch_entry(base, branches, index + 1);
        assert(branches[index] is Case || index == branches.len() - 1);
        match branches[index] {
            SpecIfNode::Case(case) => {
                lemma_case_begins(origin, s, branches, index);
                let (evaluated, condition) = lower_expr(s, case.expr)->Ok_0;
                let body = case_body(base, index);
                let inside = evaluated.seal(
                    SpecTerminator::Branch { condition, on_true: body, on_false: next },
                ).move_to(body);
                lemma_nodes_extend(inside, case.body, 0);
                let after = lower_nodes(inside, case.body, 0)->Ok_0;
                lemma_branch_body_done(origin, s, inside, after, branches, index);
                lemma_branches_extend(
                    origin,
                    after.seal(SpecTerminator::Jump { target: merge }).move_to(next),
                    branches,
                    index + 1,
                );
            },
            SpecIfNode::Else(body) => {
                lemma_nodes_extend(s, body, 0);
                let after = lower_nodes(s, body, 0)->Ok_0;
                lemma_branch_body_done(origin, s, s, after, branches, index);
                lemma_branches_extend(
                    origin,
                    after.seal(SpecTerminator::Jump { target: merge }).move_to(next),
                    branches,
                    index + 1,
                );
            },
        }
    }
}

/// The state in which the branches of a chain are lowered is as
/// [`within_chain`] says of the first branch.
pub proof fn lemma_chain_begins(origin: Lowering, branches: Seq<SpecIfNode>)
    requires
        origin.wf(),
        else_comes_last(branches),
    ensures
        ({
            let base = origin.blocks.len() as int;
            let merge = merge_block(base, branches);
            let first = branch_entry(base, branches, 0);
            within_chain(
                origin,
                origin.open_blocks((merge - base + 1) as nat).seal(
                    SpecTerminator::Jump { target: first },
                ).move_to(first),
                branches,
                0,
            )
        }),
{
    reveal(within_chain);
    let base = origin.blocks.len() as int;
    let merge = merge_block(base, branches);
    let first = branch_entry(base, branches, 0);
    let opened = origin.open_blocks((merge - base + 1) as nat);
    lemma_open_blocks(origin, (merge - base + 1) as nat);
    let s = opened.seal(SpecTerminator::Jump { target: first }).move_to(first);
    assert(base <= first <= merge);
    assert forall|b: int|
        0 <= b < s.blocks.len() implies
        ((#[trigger] s.blocks[b]).terminator matches Some(terminator)
            ==> terminator.stays_within(s.blocks.len() as int))
    by {
        if b != origin.cursor {
            assert(s.blocks[b] == opened.blocks[b]);
            if b < base {
                assert(opened.blocks[b] == origin.blocks[b]);
            }
        }
    }
    assert forall|i: int|
        0 <= i < s.loop_exits.len() implies
        {
            let exit = #[trigger] s.loop_exits[i];
            &&& 0 <= exit < s.blocks.len()
            &&& exit != s.cursor
            &&& s.blocks[exit].terminator is None
        }
    by {
        let exit = origin.loop_exits[i];
        assert(opened.blocks[exit] == origin.blocks[exit]);
    }
    assert forall|b: int|
        0 <= b < base && b != origin.cursor implies #[trigger] s.blocks[b] == origin.blocks[b]
    by {
        assert(opened.blocks[b] == origin.blocks[b]);
    }
    assert(opened.blocks[origin.cursor] == origin.blocks[origin.cursor]);
    assert forall|b: int|
        s.cursor <= b <= merge implies #[trigger] s.blocks[b] == SpecBlock::empty()
    by {
        assert(opened.blocks[b] == SpecBlock::empty());
    }
    assert(s.blocks[first] == SpecBlock::empty());
}

/// A chain of conditions continues the state.
pub proof fn lemma_if_extends(s: Lowering, branches: Seq<SpecIfNode>)
    requires
        s.wf(),
        lower_if(s, branches) is Ok,
    ensures
        s.extends_to(lower_if(s, branches)->Ok_0),
        lower_if(s, branches)->Ok_0.cursor == merge_block(s.blocks.len() as int, branches),
    decreases branches, branches.len() + 1,
{
    let base = s.blocks.len() as int;
    let merge = merge_block(base, branches);
    let first = branch_entry(base, branches, 0);
    lemma_chain_begins(s, branches);
    let start = s.open_blocks((merge - base + 1) as nat).seal(
        SpecTerminator::Jump { target: first },
    ).move_to(first);
    lemma_branches_extend(s, start, branches, 0);
}

/// The state in which the body of a loop is lowered is well-formed.
pub proof fn lemma_loop_begins(s: Lowering)
    requires
        s.wf(),
    ensures
        ({
            let header = s.blocks.len() as int;
            let inside = s.open_blocks(2).seal(SpecTerminator::Jump { target: header }).move_to(
                header,
            ).enter_loop(header + 1);
            &&& inside.wf()
            &&& inside.blocks.len() == s.blocks.len() + 2
            &&& inside.blocks[header] == SpecBlock::empty()
            &&& inside.blocks[header + 1] == SpecBlock::empty()
            &&& inside.blocks[s.cursor] == SpecBlock {
                instructions: s.blocks[s.cursor].instructions,
                terminator: Some(SpecTerminator::Jump { target: header }),
            }
            &&& forall|b: int|
                0 <= b < s.blocks.len() && b != s.cursor ==> #[trigger] inside.blocks[b]
                    == s.blocks[b]
            &&& inside.slots == s.slots
            &&& inside.scope == s.scope
            &&& inside.loop_exits == s.loop_exits.push(header + 1)
            &&& inside.cursor == header
        }),
{
    let header = s.blocks.len() as int;
    let opened = s.open_blocks(2);
    lemma_open_blocks(s, 2);
    let inside = opened.seal(SpecTerminator::Jump { target: header }).move_to(header).enter_loop(
        header + 1,
    );
    assert forall|b: int|
        0 <= b < inside.blocks.len() implies
        ((#[trigger] inside.blocks[b]).terminator matches Some(terminator)
            ==> terminator.stays_within(inside.blocks.len() as int))
    by {
        if b != s.cursor {
            assert(inside.blocks[b] == opened.blocks[b]);
            if b < header {
                assert(opened.blocks[b] == s.blocks[b]);
            }
        }
    }
    assert forall|i: int|
        0 <= i < inside.loop_exits.len() implies
        {
            let exit = #[trigger] inside.loop_exits[i];
            &&& 0 <= exit < inside.blocks.len()
            &&& exit != inside.cursor
            &&& inside.blocks[exit].terminator is None
        }
    by {
        if i < s.loop_exits.len() {
            let exit = s.loop_exits[i];
            assert(opened.blocks[exit] == s.blocks[exit]);
        } else {
            assert(opened.blocks[header + 1] == SpecBlock::empty());
        }
    }
    assert(opened.blocks[header] == SpecBlock::empty());
    assert(opened.blocks[header + 1] == SpecBlock::empty());
    assert(opened.blocks[s.cursor] == s.blocks[s.cursor]);
    assert forall|b: int|
        0 <= b < s.blocks.len() && b != s.cursor implies #[trigger] inside.blocks[b] == s.blocks[b]
    by {
        assert(opened.blocks[b] == s.blocks[b]);
    }
}

/// A loop continues the state, and ends with the cursor at the block that
/// follows the loop.
pub proof fn lemma_loop_extends(s: Lowering, body: Seq<SpecNode>)
    requires
        s.wf(),
        lower_loop(s, body) is Ok,
    ensures
        s.extends_to(lower_loop(s, body)->Ok_0),
        lower_loop(s, body)->Ok_0.cursor == s.blocks.len() + 1,
    decreases body, body.len() + 1,
{
    let header = s.blocks.len() as int;
    let exit = header + 1;
    lemma_loop_begins(s);
    let inside = s.open_blocks(2).seal(SpecTerminator::Jump { target: header }).move_to(
        header,
    ).enter_loop(exit);
    lemma_nodes_extend(inside, body, 0);
    let after = lower_nodes(inside, body, 0)->Ok_0;
    let done = after.seal(SpecTerminator::Jump { target: header }).leave_loop().move_to(exit);
    assert(after.loop_exits[s.loop_exits.len() as int] == exit);
    assert(after.cursor != exit);
    assert(after.blocks[exit] == inside.blocks[exit]);
    assert(done.loop_exits =~= s.loop_exits);
    assert forall|b: int|
        0 <= b < done.blocks.len() implies
        ((#[trigger] done.blocks[b]).terminator matches Some(terminator)
            ==> terminator.stays_within(done.blocks.len() as int))
    by {
        if b != after.cursor {
            assert(done.blocks[b] == after.blocks[b]);
        }
    }
    assert forall|i: int|
        0 <= i < done.loop_exits.len() implies
        {
            let outer = #[trigger] done.loop_exits[i];
            &&& 0 <= outer < done.blocks.len()
            &&& outer != done.cursor
            &&& done.blocks[outer].terminator is None
        }
    by {
        let outer = s.loop_exits[i];
        assert(after.loop_exits[i] == outer);
    }
    assert forall|b: int|
        0 <= b < s.blocks.len() && b != s.cursor implies #[trigger] done.blocks[b] == s.blocks[b]
    by {
        assert(after.blocks[b] == inside.blocks[b]);
    }
    assert(done.blocks[s.cursor] == inside.blocks[s.cursor]) by {
        assert(after.blocks[s.cursor] == inside.blocks[s.cursor]);
    }
    assert forall|b: int|
        s.blocks.len() <= b < done.blocks.len() && b != done.cursor implies
        (#[trigger] done.blocks[b]).terminator is Some
    by {
        if b == after.cursor {
        } else if b == header {
        } else {
        }
    }
    assert forall|name: Seq<char>|
        done.scope.contains_key(name) implies
        0 <= #[trigger] done.scope[name] < done.slots.len()
    by {}
}

/// A statement continues the state.
pub proof fn lemma_node_extends(s: Lowering, node: SpecNode)
    requires
        s.wf(),
        lower_node(s, node) is Ok,
    ensures
        s.extends_to(lower_node(s, node)->Ok_0),
    decreases node, 0nat,
{
    match node {
        SpecNode::Loop(body) => lemma_loop_extends(s, body),
        SpecNode::Break => lemma_break_extends(s),
        SpecNode::Call(call) => lemma_call_extends(s, call),
        SpecNode::Variable(variable) => lemma_variable_extends(s, variable),
        SpecNode::If(branches) => lemma_if_extends(s, branches),
        _ => {},
    }
}

/// Continuing is transitive.
pub proof fn lemma_extends_twice(s: Lowering, middle: Lowering, after: Lowering)
    requires
        s.wf(),
        s.extends_to(middle),
        middle.extends_to(after),
    ensures
        s.extends_to(after),
{
    assert forall|b: int|
        0 <= b < s.blocks.len() && b != s.cursor implies
        #[trigger] after.blocks[b] == s.blocks[b]
    by {
        assert(middle.blocks[b] == s.blocks[b]);
    }
    if middle.cursor != s.cursor {
        assert(after.blocks[s.cursor] == middle.blocks[s.cursor]);
    }
    assert forall|b: int|
        s.blocks.len() <= b < after.blocks.len() && b != after.cursor implies
        (#[trigger] after.blocks[b]).terminator is Some
    by {
        if b < middle.blocks.len() && b != middle.cursor {
            assert(after.blocks[b] == middle.blocks[b]);
        }
    }
}

/// A sequence of statements continues the state.
pub proof fn lemma_nodes_extend(s: Lowering, tree: Seq<SpecNode>, from: int)
    requires
        s.wf(),
        0 <= from,
        lower_nodes(s, tree, from) is Ok,
    ensures
        s.extends_to(lower_nodes(s, tree, from)->Ok_0),
    decreases tree, tree.len() - from,
{
    if from < tree.len() {
        lemma_node_extends(s, tree[from]);
        let middle = lower_node(s, tree[from])->Ok_0;
        lemma_nodes_extend(middle, tree, from + 1);
        lemma_extends_twice(s, middle, lower_nodes(middle, tree, from + 1)->Ok_0);
    } else {
        assert(s.extends_to(s));
    }
}

impl Lowering {
    /// Whether the block `b` of `after`, if it is closed, leads only to
    /// blocks that did not exist in `self` and to the blocks that follow the
    /// loops around the cursor of `self`.
    pub open spec fn leaves_alone(self, after: Lowering, b: int) -> bool {
        after.blocks[b].terminator matches Some(terminator) ==> terminator.leads_past(
            self.blocks.len() as int,
            self.loop_exits,
        )
    }

    /// Whether lowering from `self` to `after` has kept to itself: the
    /// blocks that it has created, and the cursor of `self` if it has
    /// closed it, lead only to blocks that it has created and to the blocks
    /// that follow the loops around the cursor of `self`. No edge goes to a
    /// block that existed before and follows no such loop.
    pub open spec fn keeps_to_itself(self, after: Lowering) -> bool {
        forall|b: int|
            (self.blocks.len() <= b < after.blocks.len() || b == self.cursor)
                ==> #[trigger] self.leaves_alone(after, b)
    }
}

/// Lowering that adds no block and closes none keeps to itself.
pub proof fn lemma_growth_keeps_to_itself(s: Lowering, after: Lowering)
    requires
        s.wf(),
        s.grows_to(after),
    ensures
        s.keeps_to_itself(after),
{
    assert forall|b: int|
        (s.blocks.len() <= b < after.blocks.len() || b == s.cursor) implies
        #[trigger] s.leaves_alone(after, b)
    by {}
}

/// Keeping to itself is transitive.
pub proof fn lemma_keeps_to_itself_twice(s: Lowering, middle: Lowering, after: Lowering)
    requires
        s.wf(),
        s.extends_to(middle),
        middle.extends_to(after),
        s.keeps_to_itself(middle),
        middle.keeps_to_itself(after),
    ensures
        s.keeps_to_itself(after),
{
    assert forall|b: int|
        (s.blocks.len() <= b < after.blocks.len() || b == s.cursor) implies
        #[trigger] s.leaves_alone(after, b)
    by {
        if middle.blocks.len() <= b || b == middle.cursor {
            assert(middle.leaves_alone(after, b));
        } else {
            assert(after.blocks[b] == middle.blocks[b]);
            assert(s.leaves_alone(middle, b));
        }
    }
}

/// A break keeps to itself: it leads to the block that follows the
/// innermost loop.
pub proof fn lemma_break_keeps_to_itself(s: Lowering)
    requires
        s.wf(),
        lower_break(s) is Ok,
    ensures
        s.keeps_to_itself(lower_break(s)->Ok_0),
{
    let after = lower_break(s)->Ok_0;
    assert(s.loop_exits.contains(s.loop_exits.last())) by {
        assert(s.loop_exits[s.loop_exits.len() - 1] == s.loop_exits.last());
    }
    assert forall|b: int|
        (s.blocks.len() <= b < after.blocks.len() || b == s.cursor) implies
        #[trigger] s.leaves_alone(after, b)
    by {}
}

/// A loop keeps to itself.
pub proof fn lemma_loop_keeps_to_itself(s: Lowering, body: Seq<SpecNode>)
    requires
        s.wf(),
        lower_loop(s, body) is Ok,
    ensures
        s.keeps_to_itself(lower_loop(s, body)->Ok_0),
    decreases body, body.len() + 1,
{
    let header = s.blocks.len() as int;
    let exit = header + 1;
    lemma_loop_begins(s);
    let inside = s.open_blocks(2).seal(SpecTerminator::Jump { target: header }).move_to(
        header,
    ).enter_loop(exit);
    lemma_nodes_extend(inside, body, 0);
    lemma_nodes_keep_to_themselves(inside, body, 0);
    let after = lower_nodes(inside, body, 0)->Ok_0;
    let done = lower_loop(s, body)->Ok_0;
    assert(after.loop_exits[s.loop_exits.len() as int] == exit);
    assert forall|b: int|
        (s.blocks.len() <= b < done.blocks.len() || b == s.cursor) implies
        #[trigger] s.leaves_alone(done, b)
    by {
        if b == after.cursor {
        } else if b == s.cursor {
            assert(after.blocks[b] == inside.blocks[b]);
        } else if b == exit {
            assert(after.blocks[b] == inside.blocks[b]);
        } else {
            assert(inside.leaves_alone(after, b));
            if done.blocks[b].terminator is Some {
                let terminator = done.blocks[b].terminator->Some_0;
                assert(terminator.leads_past(inside.blocks.len() as int, inside.loop_exits));
                assert forall|target: int|
                    inside.loop_exits.contains(target) implies
                    header <= target || s.loop_exits.contains(target)
                by {
                    let i = choose|i: int|
                        0 <= i < inside.loop_exits.len() && inside.loop_exits[i] == target;
                    if i < s.loop_exits.len() {
                        assert(s.loop_exits[i] == target);
                    }
                }
            }
        }
    }
}

/// Whether the blocks of a chain that are closed in `s`, and the block from
/// which the chain was entered, lead only to blocks of the chain and to
/// the blocks that follow the loops around the chain.
pub open spec fn chain_keeps_to_itself(origin: Lowering, s: Lowering) -> bool {
    forall|b: int|
        (origin.blocks.len() <= b < s.blocks.len() || b == origin.cursor)
            ==> #[trigger] origin.leaves_alone(s, b)
}

/// A chain of conditions, from branch `index` on, keeps to itself if what
/// was lowered of it so far did.
pub proof fn lemma_branches_keep_to_themselves(
    origin: Lowering,
    s: Lowering,
    branches: Seq<SpecIfNode>,
    index: int,
)
    requires
        within_chain(origin, s, branches, index),
        chain_keeps_to_itself(origin, s),
        lower_branches(s, branches, origin.blocks.len() as int, index) is Ok,
    ensures
        origin.keeps_to_itself(
            lower_branches(s, branches, origin.blocks.len() as int, index)->Ok_0,
        ),
    decreases branches, branches.len() - index,
{
    let base = origin.blocks.len() as int;
    let merge = merge_block(base, branches);
    lemma_within_chain(origin, s, branches, index);
    if index < branches.len() {
        let next = branch_entry(base, branches, index + 1);
        let inside = match branches[index] {
            SpecIfNode::Case(_) => case_inside(s, branches, base, index),
            SpecIfNode::Else(_) => s,
        };
        let body = match branches[index] {
            SpecIfNode::Case(case) => case.body,
            SpecIfNode::Else(body) => body,
        };
        match branches[index] {
            SpecIfNode::Case(case) => {
                lemma_case_begins(origin, s, branches, index);
                lemma_expr_grows(s, case.expr);
            },
            SpecIfNode::Else(_) => {
                lemma_within_chain_else(origin, s, branches, index);
            },
        }
        lemma_nodes_extend(inside, body, 0);
        lemma_nodes_keep_to_themselves(inside, body, 0);
        let after = lower_nodes(inside, body, 0)->Ok_0;
        lemma_branch_body_done(origin, s, inside, after, branches, index);
        let following = after.seal(SpecTerminator::Jump { target: merge }).move_to(next);
        assert(inside.loop_exits == origin.loop_exits) by {
            reveal(within_chain);
        }
        assert forall|b: int|
            (base <= b < following.blocks.len() || b == origin.cursor) implies
            #[trigger] origin.leaves_alone(following, b)
        by {
            if b == after.cursor {
            } else if inside.blocks.len() <= b || b == inside.cursor {
                assert(inside.leaves_alone(after, b));
            } else {
                assert(after.blocks[b] == inside.blocks[b]);
                if b == s.cursor {
                } else {
                    assert(inside.blocks[b] == s.blocks[b]);
                    assert(origin.leaves_alone(s, b));
                }
            }
        }
        lemma_branches_keep_to_themselves(origin, following, branches, index + 1);
    }
}

/// A chain of conditions keeps to itself.
pub proof fn lemma_if_keeps_to_itself(s: Lowering, branches: Seq<SpecIfNode>)
    requires
        s.wf(),
        lower_if(s, branches) is Ok,
    ensures
        s.keeps_to_itself(lower_if(s, branches)->Ok_0),
    decreases branches, branches.len() + 1,
{
    let base = s.blocks.len() as int;
    let merge = merge_block(base, branches);
    let first = branch_entry(base, branches, 0);
    lemma_chain_begins(s, branches);
    lemma_open_blocks(s, (merge - base + 1) as nat);
    let start = s.open_blocks((merge - base + 1) as nat).seal(
        SpecTerminator::Jump { target: first },
    ).move_to(first);
    assert forall|b: int|
        (base <= b < start.blocks.len() || b == s.cursor) implies #[trigger] s.leaves_alone(
        start,
        b,
    ) by {}
    lemma_branches_keep_to_themselves(s, start, branches, 0);
}

/// A statement keeps to itself.
pub proof fn lemma_node_keeps_to_itself(s: Lowering, node: SpecNode)
    requires
        s.wf(),
        lower_node(s, node) is Ok,
    ensures
        s.keeps_to_itself(lower_node(s, node)->Ok_0),
    decreases node, 0nat,
{
    match node {
        SpecNode::Loop(body) => lemma_loop_keeps_to_itself(s, body),
        SpecNode::Break => lemma_break_keeps_to_itself(s),
        SpecNode::Call(call) => {
            lemma_call_extends(s, call);
            lemma_growth_keeps_to_itself(s, lower_call(s, call)->Ok_0);
        },
        SpecNode::Variable(variable) => {
            lemma_variable_extends(s, variable);
            let after = lower_variable(s, variable)->Ok_0;
            assert forall|b: int|
                (s.blocks.len() <= b < after.blocks.len() || b == s.cursor) implies
                #[trigger] s.leaves_alone(
                after,
                b,
            ) by {}
        },
        SpecNode::If(branches) => lemma_if_keeps_to_itself(s, branches),
        _ => {},
    }
}

/// A sequence of statements keeps to itself.
pub proof fn lemma_nodes_keep_to_themselves(s: Lowering, tree: Seq<SpecNode>, from: int)
    requires
        s.wf(),
        0 <= from,
        lower_nodes(s, tree, from) is Ok,
    ensures
        s.keeps_to_itself(lower_nodes(s, tree, from)->Ok_0),
    decreases tree, tree.len() - from,
{
    if from < tree.len() {
        lemma_node_extends(s, tree[from]);
        lemma_node_keeps_to_itself(s, tree[from]);
        let middle = lower_node(s, tree[from])->Ok_0;
        lemma_nodes_extend(middle, tree, from + 1);
        lemma_nodes_keep_to_themselves(middle, tree, from + 1);
        lemma_keeps_to_itself_twice(s, middle, lower_nodes(middle, tree, from + 1)->Ok_0);
    } else {
        assert forall|b: int|
            (s.blocks.len() <= b < s.blocks.len() || b == s.cursor) implies
            #[trigger] s.leaves_alone(
            s,
            b,
        ) by {}
    }
}

} // verus!

//! What holds of every lowering, proved from its definition.
use crate::compiler::flow::{SpecBlock, SpecInstruction, SpecTerminator, SpecValueRef};
use crate::compiler::frames::{
    case_inside, lemma_branch_body_done, lemma_case_begins, lemma_chain_begins, lemma_emit_grows,
    lemma_expr_grows, lemma_extends_twice, lemma_grows_extends, lemma_if_extends, lemma_loop_begins,
    lemma_math_rest_grows, lemma_node_extends, lemma_nodes_extend, lemma_nodes_keep_to_themselves,
    lemma_open_blocks, lemma_term_grows, lemma_variable_extends, lemma_within_chain,
    lemma_within_chain_else, within_chain,
};
use crate::compiler::lowering::{
    branch_entry, case_body, else_comes_last, lower_branches, lower_expr, lower_if, lower_loop,
    lower_math_chain, lower_math_rest, lower_node, lower_nodes, lower_term, lower_variable,
    merge_block, Lowering,
};
use crate::errors::{CompileError, CompileErrorClass};
use crate::parser::{
    ConditionalOperator, MathOperator, Number, SpecBinaryExprTerm, SpecExpr, SpecIfCase, SpecIfNode,
    SpecNode, SpecTerm, SpecVariable,
};
use vstd::prelude::*;

verus! {

/// A break with no loop around it is refused as a breach of control-flow
/// integrity, whatever else the state holds.
pub proof fn lemma_break_needs_loop(s: Lowering)
    requires
        s.loop_exits.len() == 0,
    ensures
        lower_node(s, SpecNode::Break) == Err::<Lowering, CompileError>(
            CompileError::BreakOutsideLoop,
        ),
        CompileError::BreakOutsideLoop.spec_class() == CompileErrorClass::ControlFlowIntegrity,
{
}

/// Whether the statement is, or holds in the body of a conditional, a
/// break that no loop of the statement surrounds.
pub open spec fn has_stray_break(node: SpecNode) -> bool
    decreases node,
{
    match node {
        SpecNode::Break => true,
        SpecNode::If(branches) => exists|i: int|
            0 <= i < branches.len() && branch_has_stray_break(#[trigger] branches[i]),
        _ => false,
    }
}

/// Whether the body of the branch holds a stray break.
pub open spec fn branch_has_stray_break(branch: SpecIfNode) -> bool
    decreases branch,
{
    match branch {
        SpecIfNode::Case(case) => exists|j: int|
            0 <= j < case.body.len() && has_stray_break(#[trigger] case.body[j]),
        SpecIfNode::Else(body) => exists|j: int|
            0 <= j < body.len() && has_stray_break(#[trigger] body[j]),
    }
}

/// A statement with a stray break is never lowered outside a loop: the
/// compilation fails, at the break or before it.
pub proof fn lemma_stray_break_rejected(s: Lowering, node: SpecNode)
    requires
        s.wf(),
        s.loop_exits.len() == 0,
        has_stray_break(node),
    ensures
        lower_node(s, node) is Err,
    decreases node, 0nat,
{
    match node {
        SpecNode::If(branches) => {
            if else_comes_last(branches) {
                let at = choose|i: int|
                    0 <= i < branches.len() && branch_has_stray_break(#[trigger] branches[i]);
                let base = s.blocks.len() as int;
                let merge = merge_block(base, branches);
                let first = branch_entry(base, branches, 0);
                lemma_chain_begins(s, branches);
                lemma_stray_break_in_chain(
                    s,
                    s.open_blocks((merge - base + 1) as nat).seal(
                        SpecTerminator::Jump { target: first },
                    ).move_to(first),
                    branches,
                    0,
                    at,
                );
            }
        },
        _ => {},
    }
}

/// A chain of conditions one of whose bodies, at or after branch `index`,
/// holds a stray break is never lowered outside a loop.
pub proof fn lemma_stray_break_in_chain(
    origin: Lowering,
    s: Lowering,
    branches: Seq<SpecIfNode>,
    index: int,
    at: int,
)
    requires
        within_chain(origin, s, branches, index),
        origin.loop_exits.len() == 0,
        index <= at < branches.len(),
        branch_has_stray_break(branches[at]),
    ensures
        lower_branches(s, branches, origin.blocks.len() as int, index) is Err,
    decreases branches, branches.len() - index,
{
    let base = origin.blocks.len() as int;
    let merge = merge_block(base, branches);
    let next = branch_entry(base, branches, index + 1);
    lemma_within_chain(origin, s, branches, index);
    assert(s.loop_exits == origin.loop_exits) by {
        reveal(within_chain);
    }
    match branches[index] {
        SpecIfNode::Case(case) => {
            if lower_expr(s, case.expr) is Ok {
                lemma_case_begins(origin, s, branches, index);
                let inside = case_inside(s, branches, base, index);
                if index == at {
                    let j = choose|j: int|
                        0 <= j < case.body.len() && has_stray_break(#[trigger] case.body[j]);
                    lemma_stray_break_in_tree(inside, case.body, 0, j);
                } else if lower_nodes(inside, case.body, 0) is Ok {
                    lemma_nodes_extend(inside, case.body, 0);
                    let after = lower_nodes(inside, case.body, 0)->Ok_0;
                    lemma_branch_body_done(origin, s, inside, after, branches, index);
                    lemma_stray_break_in_chain(
                        origin,
                        after.seal(SpecTerminator::Jump { target: merge }).move_to(next),
                        branches,
                        index + 1,
                        at,
                    );
                }
            }
        },
        SpecIfNode::Else(body) => {
            if index == at {
                let j = choose|j: int| 0 <= j < body.len() && has_stray_break(#[trigger] body[j]);
                lemma_stray_break_in_tree(s, body, 0, j);
            } else if lower_nodes(s, body, 0) is Ok {
                lemma_nodes_extend(s, body, 0);
                let after = lower_nodes(s, body, 0)->Ok_0;
                lemma_within_chain_else(origin, s, branches, index);
                lemma_branch_body_done(origin, s, s, after, branches, index);
                lemma_stray_break_in_chain(
                    origin,
                    after.seal(SpecTerminator::Jump { target: merge }).move_to(next),
                    branches,
                    index + 1,
                    at,
                );
            }
        },
    }
}

/// A sequence of statements one of which, at or after `from`, has a stray
/// break is never lowered outside a loop.
pub proof fn lemma_stray_break_in_tree(s: Lowering, tree: Seq<SpecNode>, from: int, at: int)
    requires
        s.wf(),
        s.loop_exits.len() == 0,
        0 <= from <= at < tree.len(),
        has_stray_break(tree[at]),
    ensures
        lower_nodes(s, tree, from) is Err,
    decreases tree, tree.len() - from,
{
    if from == at {
        lemma_stray_break_rejected(s, tree[at]);
    } else if lower_node(s, tree[from]) is Ok {
        lemma_node_extends(s, tree[from]);
        lemma_stray_break_in_tree(lower_node(s, tree[from])->Ok_0, tree, from + 1, at);
    }
}

/// A name that is declared twice stands for the slot of the second
/// declaration from then on, while what was compiled before keeps reading
/// the slot of the first.
///
/// Here `first` and `second` declare the same name, a reference to the name
/// is lowered right after each, and any statements may stand between the
/// first reference and the second declaration.
pub proof fn lemma_redeclaration_shadows(
    s: Lowering,
    first: SpecVariable,
    between: Seq<SpecNode>,
    second: SpecVariable,
)
    requires
        s.wf(),
        first.declaration.ident == second.declaration.ident,
        lower_variable(s, first) is Ok,
        lower_nodes(after_first_use(s, first), between, 0) is Ok,
        lower_variable(lower_nodes(after_first_use(s, first), between, 0)->Ok_0, second) is Ok,
    ensures
        ({
            let name = first.declaration.ident;
            let declared = lower_variable(s, first)->Ok_0;
            let (used, early) = lower_term(declared, SpecTerm::Ident(name))->Ok_0;
            let later = lower_nodes(used, between, 0)->Ok_0;
            let redeclared = lower_variable(later, second)->Ok_0;
            let (done, late) = lower_term(redeclared, SpecTerm::Ident(name))->Ok_0;
            &&& lower_term(declared, SpecTerm::Ident(name)) is Ok
            &&& lower_term(redeclared, SpecTerm::Ident(name)) is Ok
            &&& done.blocks[early.block].instructions[early.index] == (SpecInstruction::Load {
                slot: s.slots.len() as int,
            })
            &&& done.blocks[late.block].instructions[late.index] == (SpecInstruction::Load {
                slot: later.slots.len() as int,
            })
            &&& s.slots.len() < later.slots.len()
        }),
{
    let name = first.declaration.ident;
    let declared = lower_variable(s, first)->Ok_0;
    lemma_variable_extends(s, first);
    let (used, early) = lower_term(declared, SpecTerm::Ident(name))->Ok_0;
    lemma_term_grows(declared, SpecTerm::Ident(name));
    lemma_grows_extends(declared, used);
    let later = lower_nodes(used, between, 0)->Ok_0;
    lemma_nodes_extend(used, between, 0);
    let redeclared = lower_variable(later, second)->Ok_0;
    lemma_variable_extends(later, second);
    let (done, late) = lower_term(redeclared, SpecTerm::Ident(name))->Ok_0;
    lemma_term_grows(redeclared, SpecTerm::Ident(name));
    lemma_grows_extends(redeclared, done);
    lemma_extends_twice(used, later, redeclared);
    lemma_extends_twice(used, redeclared, done);
    assert(used.blocks[early.block].instructions[early.index] == (SpecInstruction::Load {
        slot: s.slots.len() as int,
    }));
    if done.cursor != used.cursor {
    }
}

/// The state right after the declaration `first` and one reference to the
/// name that it declares.
pub open spec fn after_first_use(s: Lowering, first: SpecVariable) -> Lowering {
    lower_term(lower_variable(s, first)->Ok_0, SpecTerm::Ident(first.declaration.ident))->Ok_0.0
}

/// A meaning for the constants and operators of the language over some
/// domain of values.
#[verifier::reject_recursive_types(V)]
pub ghost struct Interpretation<V> {
    pub number: spec_fn(Number) -> V,
    pub text: spec_fn(Seq<char>) -> V,
    pub arithmetic: spec_fn(MathOperator, V, V) -> V,
    pub compare: spec_fn(ConditionalOperator, V, V) -> V,
}

/// The value that the instruction at `index` of a block computes when the
/// slots hold `memory`. An operand is an earlier instruction of the same
/// block, whose number is `block`.
pub open spec fn value_at<V>(
    meaning: Interpretation<V>,
    memory: Map<int, V>,
    instructions: Seq<SpecInstruction>,
    block: int,
    index: int,
) -> V
    decreases index,
{
    if index < 0 || index >= instructions.len() {
        arbitrary()
    } else {
        match instructions[index] {
            SpecInstruction::Number { value } => (meaning.number)(value),
            SpecInstruction::Text { value } => (meaning.text)(value),
            SpecInstruction::Load { slot } => memory[slot],
            SpecInstruction::Arithmetic { operator, left, right } => if left.block == block
                && right.block == block && 0 <= left.index < index && 0 <= right.index < index {
                (meaning.arithmetic)(
                    operator,
                    value_at(meaning, memory, instructions, block, left.index),
                    value_at(meaning, memory, instructions, block, right.index),
                )
            } else {
                arbitrary()
            },
            SpecInstruction::Compare { operator, left, right } => if left.block == block
                && right.block == block && 0 <= left.index < index && 0 <= right.index < index {
                (meaning.compare)(
                    operator,
                    value_at(meaning, memory, instructions, block, left.index),
                    value_at(meaning, memory, instructions, block, right.index),
                )
            } else {
                arbitrary()
            },
            _ => arbitrary(),
        }
    }
}

/// The value of a term when the names stand for the slots of `scope` and
/// the slots hold `memory`.
pub open spec fn term_value<V>(
    meaning: Interpretation<V>,
    memory: Map<int, V>,
    scope: Map<Seq<char>, int>,
    term: SpecTerm,
) -> V {
    match term {
        SpecTerm::String(text) => (meaning.text)(text),
        SpecTerm::Number(value) => (meaning.number)(value),
        SpecTerm::Ident(name) => memory[scope[name]],
    }
}

/// The value of the first `count` operands of a chain, taken from left to
/// right: each operator is applied to the value of all that stands before
/// it and to the one operand after it.
pub open spec fn left_fold<V>(
    meaning: Interpretation<V>,
    memory: Map<int, V>,
    scope: Map<Seq<char>, int>,
    terms: Seq<SpecBinaryExprTerm>,
    count: int,
) -> V
    decreases count,
{
    if count <= 1 {
        term_value(meaning, memory, scope, terms[0].operand)
    } else {
        (meaning.arithmetic)(
            terms[count - 2].operator->Some_0,
            left_fold(meaning, memory, scope, terms, count - 1),
            term_value(meaning, memory, scope, terms[count - 1].operand),
        )
    }
}

/// What an instruction computes does not change when instructions are
/// added after it.
pub proof fn lemma_value_is_stable<V>(
    meaning: Interpretation<V>,
    memory: Map<int, V>,
    instructions: Seq<SpecInstruction>,
    longer: Seq<SpecInstruction>,
    block: int,
    index: int,
)
    requires
        instructions.is_prefix_of(longer),
        0 <= index < instructions.len(),
    ensures
        value_at(meaning, memory, longer, block, index) == value_at(
            meaning,
            memory,
            instructions,
            block,
            index,
        ),
    decreases index,
{
    assert(longer[index] == instructions[index]);
    match instructions[index] {
        SpecInstruction::Arithmetic { operator, left, right } => {
            if left.block == block && right.block == block && 0 <= left.index < index && 0
                <= right.index < index {
                lemma_value_is_stable(meaning, memory, instructions, longer, block, left.index);
                lemma_value_is_stable(meaning, memory, instructions, longer, block, right.index);
            }
        },
        SpecInstruction::Compare { operator, left, right } => {
            if left.block == block && right.block == block && 0 <= left.index < index && 0
                <= right.index < index {
                lemma_value_is_stable(meaning, memory, instructions, longer, block, left.index);
                lemma_value_is_stable(meaning, memory, instructions, longer, block, right.index);
            }
        },
        _ => {},
    }
}

/// The instruction that a term is lowered to computes the value of the
/// term.
pub proof fn lemma_term_computes<V>(
    meaning: Interpretation<V>,
    memory: Map<int, V>,
    s: Lowering,
    term: SpecTerm,
)
    requires
        0 <= s.cursor < s.blocks.len(),
        lower_term(s, term) is Ok,
    ensures
        ({
            let (after, value) = lower_term(s, term)->Ok_0;
            value_at(meaning, memory, after.blocks[s.cursor].instructions, s.cursor, value.index)
                == term_value(meaning, memory, s.scope, term)
        }),
{
}

/// The rest of a chain, from operand `from` on, computes the left fold of
/// the whole chain if `left` is the left fold of the operands before
/// `from`.
pub proof fn lemma_rest_is_left_fold<V>(
    meaning: Interpretation<V>,
    memory: Map<int, V>,
    s: Lowering,
    left: SpecValueRef,
    terms: Seq<SpecBinaryExprTerm>,
    from: int,
)
    requires
        0 <= s.cursor < s.blocks.len(),
        1 <= from <= terms.len(),
        left.block == s.cursor,
        0 <= left.index < s.blocks[s.cursor].instructions.len(),
        value_at(meaning, memory, s.blocks[s.cursor].instructions, s.cursor, left.index)
            == left_fold(meaning, memory, s.scope, terms, from),
        lower_math_rest(s, left, terms, from) is Ok,
    ensures
        ({
            let (after, value) = lower_math_rest(s, left, terms, from)->Ok_0;
            value_at(meaning, memory, after.blocks[s.cursor].instructions, s.cursor, value.index)
                == left_fold(meaning, memory, s.scope, terms, terms.len() as int)
        }),
    decreases terms.len() - from,
{
    if from < terms.len() {
        let operator = terms[from - 1].operator->Some_0;
        let (middle, right) = lower_term(s, terms[from].operand)->Ok_0;
        lemma_term_grows(s, terms[from].operand);
        lemma_term_computes(meaning, memory, s, terms[from].operand);
        let instruction = SpecInstruction::Arithmetic { operator, left, right };
        let next = middle.emit(instruction);
        lemma_emit_grows(middle, instruction);
        let before = s.blocks[s.cursor].instructions;
        let with_operand = middle.blocks[s.cursor].instructions;
        let with_result = next.blocks[s.cursor].instructions;
        assert(with_operand.is_prefix_of(with_result));
        assert(before.is_prefix_of(with_result));
        lemma_value_is_stable(meaning, memory, before, with_result, s.cursor, left.index);
        lemma_value_is_stable(meaning, memory, with_operand, with_result, s.cursor, right.index);
        let result = middle.next_value();
        assert(with_result[result.index] == instruction);
        assert(value_at(meaning, memory, with_result, s.cursor, result.index) == left_fold(
            meaning,
            memory,
            s.scope,
            terms,
            from + 1,
        ));
        lemma_rest_is_left_fold(meaning, memory, next, result, terms, from + 1);
    }
}

/// An arithmetic chain is lowered to code that computes its left fold,
/// whatever the operators are and whatever they mean: `a - b * c` is
/// computed as `(a - b) * c`. No operator takes precedence over another
/// here.
pub proof fn lemma_chain_is_left_fold<V>(
    meaning: Interpretation<V>,
    memory: Map<int, V>,
    s: Lowering,
    terms: Seq<SpecBinaryExprTerm>,
)
    requires
        0 <= s.cursor < s.blocks.len(),
        lower_math_chain(s, terms) is Ok,
    ensures
        ({
            let (after, value) = lower_math_chain(s, terms)->Ok_0;
            &&& value.block == s.cursor
            &&& value_at(
                meaning,
                memory,
                after.blocks[s.cursor].instructions,
                s.cursor,
                value.index,
            ) == left_fold(meaning, memory, s.scope, terms, terms.len() as int)
        }),
{
    let (middle, first) = lower_term(s, terms[0].operand)->Ok_0;
    lemma_term_grows(s, terms[0].operand);
    lemma_term_computes(meaning, memory, s, terms[0].operand);
    lemma_rest_is_left_fold(meaning, memory, middle, first, terms, 1);
    lemma_math_rest_grows(middle, first, terms, 1);
}

/// The block to which control goes from `block`, when `truth` says which
/// conditions hold. An open block leads nowhere.
pub open spec fn successor(
    blocks: Seq<SpecBlock>,
    truth: spec_fn(SpecValueRef) -> bool,
    block: int,
) -> Option<int> {
    if 0 <= block < blocks.len() {
        match blocks[block].terminator {
            Some(SpecTerminator::Jump { target }) => Some(target),
            Some(SpecTerminator::Branch { condition, on_true, on_false }) => Some(
                if truth(condition) {
                    on_true
                } else {
                    on_false
                },
            ),
            None => None,
        }
    } else {
        None
    }
}

/// The block that control is in after leaving `steps` blocks, one after
/// the other, starting in `from`.
pub open spec fn walk(
    blocks: Seq<SpecBlock>,
    truth: spec_fn(SpecValueRef) -> bool,
    from: int,
    steps: nat,
) -> Option<int>
    decreases steps,
{
    if steps == 0 {
        Some(from)
    } else {
        match walk(blocks, truth, from, (steps - 1) as nat) {
            Some(block) => successor(blocks, truth, block),
            None => None,
        }
    }
}

/// A walk through closed blocks is the same walk in any graph that has
/// kept the closed blocks.
pub proof fn lemma_walk_survives(
    blocks: Seq<SpecBlock>,
    later: Seq<SpecBlock>,
    truth: spec_fn(SpecValueRef) -> bool,
    from: int,
    steps: nat,
)
    requires
        walk(blocks, truth, from, steps) is Some,
        blocks.len() <= later.len(),
        forall|b: int|
            0 <= b < blocks.len() && (#[trigger] blocks[b]).terminator is Some ==> later[b]
                == blocks[b],
    ensures
        walk(later, truth, from, steps) == walk(blocks, truth, from, steps),
    decreases steps,
{
    if steps > 0 {
        lemma_walk_survives(blocks, later, truth, from, (steps - 1) as nat);
        let block = walk(blocks, truth, from, (steps - 1) as nat)->Some_0;
        assert(blocks[block].terminator is Some);
    }
}

/// A walk can be taken in two parts.
pub proof fn lemma_walk_in_parts(
    blocks: Seq<SpecBlock>,
    truth: spec_fn(SpecValueRef) -> bool,
    from: int,
    first: nat,
    second: nat,
)
    requires
        walk(blocks, truth, from, first) is Some,
    ensures
        walk(blocks, truth, from, first + second) == walk(
            blocks,
            truth,
            walk(blocks, truth, from, first)->Some_0,
            second,
        ),
    decreases second,
{
    if second > 0 {
        lemma_walk_in_parts(blocks, truth, from, first, (second - 1) as nat);
    }
}

/// The state in which the branches of a chain are lowered: the blocks of
/// the chain are set aside, and the cursor has jumped to the first of them.
pub open spec fn chain_start(s: Lowering, branches: Seq<SpecIfNode>) -> Lowering {
    let base = s.blocks.len() as int;
    let first = branch_entry(base, branches, 0);
    s.open_blocks((merge_block(base, branches) - base + 1) as nat).seal(
        SpecTerminator::Jump { target: first },
    ).move_to(first)
}

/// The body of a branch.
pub open spec fn body_of(branch: SpecIfNode) -> Seq<SpecNode> {
    match branch {
        SpecIfNode::Case(case) => case.body,
        SpecIfNode::Else(body) => body,
    }
}

/// The state in which the body of branch `index` is lowered, if the branch
/// starts in `s`.
pub open spec fn body_start(
    s: Lowering,
    branches: Seq<SpecIfNode>,
    base: int,
    index: int,
) -> Lowering {
    match branches[index] {
        SpecIfNode::Case(_) => case_inside(s, branches, base, index),
        SpecIfNode::Else(_) => s,
    }
}

/// The state in which the body of branch `index` is done, if the branch
/// starts in `s`.
pub open spec fn body_end(
    s: Lowering,
    branches: Seq<SpecIfNode>,
    base: int,
    index: int,
) -> Lowering {
    lower_nodes(body_start(s, branches, base, index), body_of(branches[index]), 0)->Ok_0
}

/// The state in which the branch after `index` starts, if branch `index`
/// starts in `s`.
pub open spec fn next_start(
    s: Lowering,
    branches: Seq<SpecIfNode>,
    base: int,
    index: int,
) -> Lowering {
    body_end(s, branches, base, index).seal(
        SpecTerminator::Jump { target: merge_block(base, branches) },
    ).move_to(branch_entry(base, branches, index + 1))
}

/// The state in which branch `index` starts, if branch `from` starts in
/// `s`.
pub open spec fn branch_start(
    s: Lowering,
    branches: Seq<SpecIfNode>,
    base: int,
    from: int,
    index: int,
) -> Lowering
    decreases index - from,
{
    if index <= from {
        s
    } else {
        branch_start(next_start(s, branches, base, from), branches, base, from + 1, index)
    }
}

/// The value on which the case at `index` of a chain branches, if the
/// chain is lowered from `s`.
pub open spec fn case_condition(
    s: Lowering,
    branches: Seq<SpecIfNode>,
    index: int,
) -> SpecValueRef {
    lower_expr(
        branch_start(chain_start(s, branches), branches, s.blocks.len() as int, 0, index),
        branches[index]->Case_0.expr,
    )->Ok_0.1
}

/// Once a branch is lowered, the blocks before it and the blocks of the
/// bodies before it stay as they are while the rest of the chain is
/// lowered.
pub proof fn lemma_done_blocks_stay(
    origin: Lowering,
    s: Lowering,
    branches: Seq<SpecIfNode>,
    index: int,
    block: int,
)
    requires
        within_chain(origin, s, branches, index),
        lower_branches(s, branches, origin.blocks.len() as int, index) is Ok,
        0 <= block < s.blocks.len(),
        block < s.cursor || merge_block(origin.blocks.len() as int, branches) < block,
    ensures
        s.blocks.len() <= lower_branches(
            s,
            branches,
            origin.blocks.len() as int,
            index,
        )->Ok_0.blocks.len(),
        lower_branches(s, branches, origin.blocks.len() as int, index)->Ok_0.blocks[block]
            == s.blocks[block],
    decreases branches.len() - index,
{
    let base = origin.blocks.len() as int;
    lemma_within_chain(origin, s, branches, index);
    if index < branches.len() {
        lemma_branch_steps(origin, s, branches, index);
        let inside = body_start(s, branches, base, index);
        let after = body_end(s, branches, base, index);
        let next = next_start(s, branches, base, index);
        assert(after.blocks[block] == inside.blocks[block]);
        lemma_within_chain(origin, next, branches, index + 1);
        lemma_done_blocks_stay(origin, next, branches, index + 1, block);
    }
}

/// One branch of a chain: its body is lowered from a well-formed state
/// that differs from the start of the branch in the block of the condition
/// alone, and the next branch starts in a state as [`within_chain`] says.
pub proof fn lemma_branch_steps(
    origin: Lowering,
    s: Lowering,
    branches: Seq<SpecIfNode>,
    index: int,
)
    requires
        within_chain(origin, s, branches, index),
        index < branches.len(),
        lower_branches(s, branches, origin.blocks.len() as int, index) is Ok,
    ensures
        ({
            let base = origin.blocks.len() as int;
            let inside = body_start(s, branches, base, index);
            let after = body_end(s, branches, base, index);
            let next = next_start(s, branches, base, index);
            &&& branches[index] is Case ==> lower_expr(s, branches[index]->Case_0.expr) is Ok
            &&& lower_nodes(inside, body_of(branches[index]), 0) is Ok
            &&& inside.wf()
            &&& inside.extends_to(after)
            &&& inside.blocks.len() == s.blocks.len()
            &&& inside.loop_exits == s.loop_exits
            &&& inside.cursor == (if branches[index] is Case {
                s.cursor + 1
            } else {
                s.cursor
            })
            &&& forall|b: int|
                0 <= b < s.blocks.len() && b != s.cursor ==> #[trigger] inside.blocks[b]
                    == s.blocks[b]
            &&& branches[index] is Case ==> inside.blocks[s.cursor].terminator == Some(
                SpecTerminator::Branch {
                    condition: lower_expr(s, branches[index]->Case_0.expr)->Ok_0.1,
                    on_true: case_body(base, index),
                    on_false: branch_entry(base, branches, index + 1),
                },
            )
            &&& within_chain(origin, next, branches, index + 1)
            &&& next.blocks[after.cursor].terminator == Some(
                SpecTerminator::Jump { target: merge_block(base, branches) },
            )
            &&& forall|b: int|
                0 <= b < after.blocks.len() && b != after.cursor ==> #[trigger] next.blocks[b]
                    == after.blocks[b]
            &&& after.cursor == inside.cursor || after.cursor >= inside.blocks.len()
            &&& lower_branches(s, branches, base, index) == lower_branches(
                next,
                branches,
                base,
                index + 1,
            )
        }),
{
    let base = origin.blocks.len() as int;
    lemma_within_chain(origin, s, branches, index);
    match branches[index] {
        SpecIfNode::Case(case) => {
            lemma_case_begins(origin, s, branches, index);
            lemma_expr_grows(s, case.expr);
            let inside = case_inside(s, branches, base, index);
            lemma_nodes_extend(inside, case.body, 0);
            let after = lower_nodes(inside, case.body, 0)->Ok_0;
            lemma_branch_body_done(origin, s, inside, after, branches, index);
        },
        SpecIfNode::Else(body) => {
            lemma_within_chain_else(origin, s, branches, index);
            lemma_nodes_extend(s, body, 0);
            let after = lower_nodes(s, body, 0)->Ok_0;
            lemma_branch_body_done(origin, s, s, after, branches, index);
        },
    }
}

/// In the graph that a chain of conditions is lowered to, the block of
/// each case ends in a branch on its condition, to its body or to the start
/// of the next branch, and the end of each body jumps to the merge block.
pub proof fn lemma_branch_is_wired(
    origin: Lowering,
    s: Lowering,
    branches: Seq<SpecIfNode>,
    from: int,
    index: int,
)
    requires
        within_chain(origin, s, branches, from),
        lower_branches(s, branches, origin.blocks.len() as int, from) is Ok,
        from <= index < branches.len(),
    ensures
        ({
            let base = origin.blocks.len() as int;
            let done = lower_branches(s, branches, base, from)->Ok_0;
            let start = branch_start(s, branches, base, from, index);
            let end = body_end(start, branches, base, index);
            &&& within_chain(origin, start, branches, index)
            &&& lower_branches(start, branches, base, index) == lower_branches(
                s,
                branches,
                base,
                from,
            )
            &&& start.cursor == branch_entry(base, branches, index)
            &&& 0 <= start.cursor < done.blocks.len()
            &&& lower_nodes(
                body_start(start, branches, base, index),
                body_of(branches[index]),
                0,
            ) is Ok
            &&& 0 <= end.cursor < done.blocks.len()
            &&& done.blocks[end.cursor].terminator == Some(
                SpecTerminator::Jump { target: merge_block(base, branches) },
            )
            &&& branches[index] is Case ==> {
                &&& lower_expr(start, branches[index]->Case_0.expr) is Ok
                &&& body_start(start, branches, base, index).cursor == case_body(base, index)
                &&& done.blocks[branch_entry(base, branches, index)].terminator == Some(
                    SpecTerminator::Branch {
                        condition: lower_expr(start, branches[index]->Case_0.expr)->Ok_0.1,
                        on_true: case_body(base, index),
                        on_false: branch_entry(base, branches, index + 1),
                    },
                )
            }
        }),
    decreases index - from,
{
    let base = origin.blocks.len() as int;
    lemma_within_chain(origin, s, branches, from);
    lemma_branch_steps(origin, s, branches, from);
    let next = next_start(s, branches, base, from);
    lemma_within_chain(origin, next, branches, from + 1);
    if from == index {
        let inside = body_start(s, branches, base, index);
        let after = body_end(s, branches, base, index);
        lemma_done_blocks_stay(origin, next, branches, index + 1, after.cursor);
        if branches[index] is Case {
            assert(after.blocks[s.cursor] == inside.blocks[s.cursor]);
            assert(next.blocks[s.cursor] == after.blocks[s.cursor]);
            lemma_done_blocks_stay(origin, next, branches, index + 1, s.cursor);
        }
    } else {
        lemma_branch_is_wired(origin, next, branches, from + 1, index);
    }
}

/// While a chain is lowered, the block from which it was entered keeps its
/// jump to the first block of the chain.
pub proof fn lemma_chain_is_entered(s: Lowering, branches: Seq<SpecIfNode>)
    requires
        s.wf(),
        lower_if(s, branches) is Ok,
    ensures
        lower_if(s, branches)->Ok_0.blocks[s.cursor].terminator == Some(
            SpecTerminator::Jump { target: branch_entry(s.blocks.len() as int, branches, 0) },
        ),
        within_chain(s, chain_start(s, branches), branches, 0),
        lower_if(s, branches) == lower_branches(
            chain_start(s, branches),
            branches,
            s.blocks.len() as int,
            0,
        ),
{
    lemma_chain_begins(s, branches);
    let start = chain_start(s, branches);
    lemma_within_chain(s, start, branches, 0);
    lemma_open_blocks(
        s,
        (merge_block(s.blocks.len() as int, branches) - s.blocks.len() + 1) as nat,
    );
    lemma_done_blocks_stay(s, start, branches, 0, s.cursor);
}

/// Where the first conditions of a chain are false and the next one is
/// true, control goes from the block before the chain through the blocks of
/// exactly these conditions, in order, and then into the body of the case
/// whose condition is true. No other body, and no later condition, is
/// entered on the way.
pub proof fn lemma_first_true_case_runs(
    s: Lowering,
    branches: Seq<SpecIfNode>,
    truth: spec_fn(SpecValueRef) -> bool,
    chosen: int,
)
    requires
        s.wf(),
        lower_if(s, branches) is Ok,
        0 <= chosen < branches.len(),
        branches[chosen] is Case,
        forall|i: int| 0 <= i < chosen ==> !truth(#[trigger] case_condition(s, branches, i)),
        truth(case_condition(s, branches, chosen)),
    ensures
        forall|k: int|
            0 <= k <= chosen ==> #[trigger] walk(
                lower_if(s, branches)->Ok_0.blocks,
                truth,
                s.cursor,
                (k + 1) as nat,
            ) == Some(branch_entry(s.blocks.len() as int, branches, k)),
        walk(lower_if(s, branches)->Ok_0.blocks, truth, s.cursor, (chosen + 2) as nat) == Some(
            case_body(s.blocks.len() as int, chosen),
        ),
{
    let done = lower_if(s, branches)->Ok_0;
    assert forall|k: int|
        0 <= k <= chosen implies
        #[trigger] walk(done.blocks, truth, s.cursor, (k + 1) as nat) == Some(
            branch_entry(s.blocks.len() as int, branches, k),
        )
    by {
        lemma_conditions_are_tried(s, branches, truth, k);
    }
    lemma_conditions_are_tried(s, branches, truth, chosen);
    lemma_chain_is_entered(s, branches);
    lemma_branch_is_wired(s, chain_start(s, branches), branches, 0, chosen);
    let tried = branch_entry(s.blocks.len() as int, branches, chosen);
    assert(walk(done.blocks, truth, s.cursor, (chosen + 2) as nat) == successor(
        done.blocks,
        truth,
        tried,
    ));
}

/// Where the first `count` conditions of a chain are false, control goes
/// from the block before the chain through the blocks of these conditions
/// to the start of the branch after them.
pub proof fn lemma_conditions_are_tried(
    s: Lowering,
    branches: Seq<SpecIfNode>,
    truth: spec_fn(SpecValueRef) -> bool,
    count: int,
)
    requires
        s.wf(),
        lower_if(s, branches) is Ok,
        0 <= count <= branches.len(),
        forall|i: int| 0 <= i < count ==> (#[trigger] branches[i]) is Case,
        forall|i: int| 0 <= i < count ==> !truth(#[trigger] case_condition(s, branches, i)),
    ensures
        walk(lower_if(s, branches)->Ok_0.blocks, truth, s.cursor, (count + 1) as nat) == Some(
            branch_entry(s.blocks.len() as int, branches, count),
        ),
    decreases count,
{
    let done = lower_if(s, branches)->Ok_0;
    lemma_chain_is_entered(s, branches);
    lemma_if_extends(s, branches);
    if count == 0 {
        assert(walk(done.blocks, truth, s.cursor, 0) == Some(s.cursor));
        assert(walk(done.blocks, truth, s.cursor, 1) == successor(done.blocks, truth, s.cursor));
    } else {
        lemma_conditions_are_tried(s, branches, truth, count - 1);
        lemma_branch_is_wired(s, chain_start(s, branches), branches, 0, count - 1);
        let tried = branch_entry(s.blocks.len() as int, branches, count - 1);
        assert(walk(done.blocks, truth, s.cursor, (count + 1) as nat) == successor(
            done.blocks,
            truth,
            tried,
        ));
        assert(!truth(case_condition(s, branches, count - 1)));
        lemma_within_chain(
            s,
            branch_start(chain_start(s, branches), branches, s.blocks.len() as int, 0, count - 1),
            branches,
            count - 1,
        );
    }
}

/// The end of the body of every branch jumps to the merge block, which is
/// where lowering goes on after the chain: whichever body runs, control
/// reaches the merge block when the body is done.
pub proof fn lemma_bodies_reach_merge(s: Lowering, branches: Seq<SpecIfNode>, index: int)
    requires
        s.wf(),
        lower_if(s, branches) is Ok,
        0 <= index < branches.len(),
    ensures
        ({
            let base = s.blocks.len() as int;
            let done = lower_if(s, branches)->Ok_0;
            let start = branch_start(chain_start(s, branches), branches, base, 0, index);
            let end = body_end(start, branches, base, index);
            &&& done.cursor == merge_block(base, branches)
            &&& lower_nodes(body_start(start, branches, base, index), body_of(branches[index]), 0)
                == Ok::<Lowering, CompileError>(end)
            &&& body_start(start, branches, base, index).cursor == (if branches[index] is Case {
                case_body(base, index)
            } else {
                branch_entry(base, branches, index)
            })
            &&& done.blocks[end.cursor].terminator == Some(
                SpecTerminator::Jump { target: done.cursor },
            )
        }),
{
    lemma_chain_is_entered(s, branches);
    lemma_if_extends(s, branches);
    lemma_branch_is_wired(s, chain_start(s, branches), branches, 0, index);
}

/// While control is in the body of a branch, it stays there or leaves the
/// chain: every block of the body leads only to blocks of the body and to
/// the blocks that follow the loops around the chain, and the end of the
/// body leads to the merge block. No edge goes from the body of one branch
/// to the condition or the body of another.
pub proof fn lemma_body_keeps_to_itself(
    s: Lowering,
    branches: Seq<SpecIfNode>,
    index: int,
    block: int,
)
    requires
        s.wf(),
        lower_if(s, branches) is Ok,
        0 <= index < branches.len(),
        ({
            let base = s.blocks.len() as int;
            let start = branch_start(chain_start(s, branches), branches, base, 0, index);
            let inside = body_start(start, branches, base, index);
            let end = body_end(start, branches, base, index);
            inside.blocks.len() <= block < end.blocks.len() || block == inside.cursor
        }),
    ensures
        ({
            let base = s.blocks.len() as int;
            let done = lower_if(s, branches)->Ok_0;
            let start = branch_start(chain_start(s, branches), branches, base, 0, index);
            let inside = body_start(start, branches, base, index);
            let end = body_end(start, branches, base, index);
            &&& 0 <= block < done.blocks.len()
            &&& merge_block(base, branches) < inside.blocks.len()
            &&& forall|i: int| 0 <= i < s.loop_exits.len() ==> #[trigger] s.loop_exits[i] < base
            &&& if block == end.cursor {
                done.blocks[block].terminator == Some(
                    SpecTerminator::Jump { target: merge_block(base, branches) },
                )
            } else {
                done.blocks[block].terminator matches Some(terminator) ==> terminator.leads_past(
                    inside.blocks.len() as int,
                    s.loop_exits,
                )
            }
        }),
{
    let base = s.blocks.len() as int;
    let done = lower_if(s, branches)->Ok_0;
    let first = chain_start(s, branches);
    lemma_chain_is_entered(s, branches);
    lemma_branch_is_wired(s, first, branches, 0, index);
    let start = branch_start(first, branches, base, 0, index);
    lemma_within_chain(s, start, branches, index);
    lemma_branch_steps(s, start, branches, index);
    let inside = body_start(start, branches, base, index);
    let end = body_end(start, branches, base, index);
    let next = next_start(start, branches, base, index);
    lemma_nodes_keep_to_themselves(inside, body_of(branches[index]), 0);
    assert(inside.leaves_alone(end, block));
    lemma_within_chain(s, next, branches, index + 1);
    lemma_done_blocks_stay(s, next, branches, index + 1, block);
    assert(inside.loop_exits == s.loop_exits) by {
        reveal(within_chain);
    }
}

/// A break that stands under the conditions `conditions`, one inside the
/// other: under none it is the break itself, otherwise a conditional on
/// the first condition whose body is the break under the others.
pub open spec fn break_under(conditions: Seq<SpecExpr>) -> SpecNode
    decreases conditions.len(),
{
    if conditions.len() == 0 {
        SpecNode::Break
    } else {
        SpecNode::If(
            seq![
                SpecIfNode::Case(
                    SpecIfCase {
                        expr: conditions[0],
                        body: seq![break_under(conditions.drop_first())],
                    },
                ),
            ],
        )
    }
}

/// The assignment under which every condition holds.
pub open spec fn always() -> spec_fn(SpecValueRef) -> bool {
    |condition: SpecValueRef| true
}

/// A break inside a loop, however many conditionals it stands under, is
/// lowered to a block that jumps straight to the block following the
/// innermost loop; and where all the conditions hold, control comes to
/// that block from the cursor through the conditions alone.
pub proof fn lemma_break_under_conditions(s: Lowering, conditions: Seq<SpecExpr>)
    requires
        s.wf(),
        s.loop_exits.len() > 0,
        lower_node(s, break_under(conditions)) is Ok,
    ensures
        ({
            let after = lower_node(s, break_under(conditions))->Ok_0;
            &&& walk(after.blocks, always(), s.cursor, 2 * conditions.len()) matches Some(leaving)
            &&& 0 <= leaving < after.blocks.len()
            &&& after.blocks[leaving].terminator == Some(
                SpecTerminator::Jump { target: s.loop_exits.last() },
            )
        }),
    decreases conditions.len(),
{
    let after = lower_node(s, break_under(conditions))->Ok_0;
    lemma_node_extends(s, break_under(conditions));
    if conditions.len() == 0 {
        assert(walk(after.blocks, always(), s.cursor, 0) == Some(s.cursor));
    } else {
        let inner = break_under(conditions.drop_first());
        let case = SpecIfCase { expr: conditions[0], body: seq![inner] };
        let branches = seq![SpecIfNode::Case(case)];
        let base = s.blocks.len() as int;
        assert(branches[0] == SpecIfNode::Case(case));
        assert(else_comes_last(branches));
        lemma_chain_is_entered(s, branches);
        let start = chain_start(s, branches);
        lemma_branch_steps(s, start, branches, 0);
        lemma_branch_is_wired(s, start, branches, 0, 0);
        let inside = body_start(start, branches, base, 0);
        let end = body_end(start, branches, base, 0);
        assert(case.body[0] == inner);
        assert(lower_nodes(inside, case.body, 0) == lower_nodes(
            lower_node(inside, inner)->Ok_0,
            case.body,
            1,
        ));
        assert(end == lower_node(inside, inner)->Ok_0);
        assert(inside.loop_exits == s.loop_exits) by {
            reveal(within_chain);
        }
        lemma_break_under_conditions(inside, conditions.drop_first());
        let steps = (2 * (conditions.len() - 1)) as nat;
        let leaving = walk(end.blocks, always(), inside.cursor, steps)->Some_0;
        lemma_node_extends(inside, inner);
        assert forall|b: int|
            0 <= b < end.blocks.len() && (#[trigger] end.blocks[b]).terminator is Some implies
            after.blocks[b] == end.blocks[b]
        by {
            let next = next_start(start, branches, base, 0);
            assert(b != end.cursor);
            assert(next.blocks[b] == end.blocks[b]);
            assert(after == next);
        }
        lemma_walk_survives(end.blocks, after.blocks, always(), inside.cursor, steps);
        assert(walk(after.blocks, always(), s.cursor, 0) == Some(s.cursor));
        assert(walk(after.blocks, always(), s.cursor, 1) == Some(base));
        assert(walk(after.blocks, always(), s.cursor, 2) == Some(base + 1));
        lemma_walk_in_parts(after.blocks, always(), s.cursor, 2, steps);
    }
}

/// A loop whose body is a break under any number of conditionals is
/// lowered so that the block of the break jumps straight to the block that
/// follows the loop, which is where lowering goes on; and where all the
/// conditions hold, control comes to the break from the block before the
/// loop through the header and the conditions alone.
pub proof fn lemma_break_leaves_loop(s: Lowering, conditions: Seq<SpecExpr>)
    requires
        s.wf(),
        lower_loop(s, seq![break_under(conditions)]) is Ok,
    ensures
        ({
            let after = lower_loop(s, seq![break_under(conditions)])->Ok_0;
            &&& walk(after.blocks, always(), s.cursor, 2 * conditions.len() + 1) matches Some(
                leaving,
            )
            &&& 0 <= leaving < after.blocks.len()
            &&& after.blocks[leaving].terminator == Some(
                SpecTerminator::Jump { target: after.cursor },
            )
            &&& after.cursor == s.blocks.len() + 1
        }),
{
    let body = seq![break_under(conditions)];
    let header = s.blocks.len() as int;
    let exit = header + 1;
    lemma_loop_begins(s);
    let inside = s.open_blocks(2).seal(SpecTerminator::Jump { target: header }).move_to(
        header,
    ).enter_loop(exit);
    assert(body[0] == break_under(conditions));
    assert(lower_nodes(inside, body, 0) == lower_nodes(
        lower_node(inside, break_under(conditions))->Ok_0,
        body,
        1,
    ));
    let end = lower_node(inside, break_under(conditions))->Ok_0;
    lemma_node_extends(inside, break_under(conditions));
    lemma_break_under_conditions(inside, conditions);
    let after = lower_loop(s, body)->Ok_0;
    let steps = (2 * conditions.len()) as nat;
    assert forall|b: int|
        0 <= b < end.blocks.len() && (#[trigger] end.blocks[b]).terminator is Some implies
        after.blocks[b] == end.blocks[b]
    by {
        assert(b != end.cursor);
    }
    lemma_walk_survives(end.blocks, after.blocks, always(), header, steps);
    assert(end.blocks[s.cursor] == inside.blocks[s.cursor]);
    assert(after.blocks[s.cursor] == end.blocks[s.cursor]);
    assert(walk(after.blocks, always(), s.cursor, 0) == Some(s.cursor));
    assert(walk(after.blocks, always(), s.cursor, 1) == Some(header));
    lemma_walk_in_parts(after.blocks, always(), s.cursor, 1, steps);
    assert(inside.loop_exits.last() == exit);
}

} // verus!

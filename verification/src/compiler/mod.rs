//! Lowering of the abstract syntax tree into a control-flow graph.
//!
//! [`Compiler`] is the function under construction, [`CompileMetadata`] the
//! place in it where code is being added, together with the names in scope
//! and the loops that surround that place. [`compile`] lowers a sequence of
//! statements; what it produces is defined in [`lowering`], and what holds of
//! every lowering is proved in [`frames`], [`soundness`] and [`guarantees`].
use crate::compiler::flow::{
    BasicBlock, BlockId, Instruction, SlotId, SpecBlock, SpecValueRef, Terminator, ValueRef,
};
use crate::compiler::compile_node::{compiled, Compile};
use crate::compiler::frames::lemma_nodes_extend;
use crate::compiler::lowering::{lower_node, lower_nodes, Lowering};
use crate::compiler::soundness::lemma_nodes_are_sound;
use crate::errors::{CompileError, Construct};
use crate::parser::{Node, Tree};
use vstd::prelude::*;

pub mod compile_node;
pub mod flow;
pub mod frames;
pub mod guarantees;
pub mod lowering;
pub mod soundness;

verus! {

/// The function under construction: its basic blocks and its storage
/// slots. Code is added to it by lowering alone; from outside it can only
/// be read.
pub struct Compiler {
    blocks: Vec<BasicBlock>,
    slots: Vec<String>,
}

/// The mathematical model of a [`Compiler`].
pub ghost struct SpecCompiler {
    pub blocks: Seq<SpecBlock>,
    pub slots: Seq<Seq<char>>,
}

impl DeepView for Compiler {
    type V = SpecCompiler;

    closed spec fn deep_view(&self) -> SpecCompiler {
        SpecCompiler { blocks: self.blocks.deep_view(), slots: self.slots.deep_view() }
    }
}

impl Compiler {
    /// A function that consists of one empty, open block: its entry.
    pub fn new() -> (compiler: Compiler)
        ensures
            compiler.deep_view() == (SpecCompiler {
                blocks: seq![SpecBlock::empty()],
                slots: Seq::empty(),
            }),
    {
        let mut blocks: Vec<BasicBlock> = Vec::new();
        let entry = BasicBlock { instructions: Vec::new(), terminator: None };
        assert(entry.deep_view().instructions =~= Seq::empty());
        blocks.push(entry);
        let compiler = Compiler { blocks, slots: Vec::new() };
        assert(compiler.blocks.deep_view() =~= seq![SpecBlock::empty()]);
        assert(compiler.slots.deep_view() =~= Seq::empty());
        compiler
    }

    /// The number of basic blocks.
    pub fn block_count(&self) -> (count: usize)
        ensures
            count == self.deep_view().blocks.len(),
    {
        self.blocks.len()
    }

    /// The basic block with the given number.
    pub fn block(&self, block: BlockId) -> (found: &BasicBlock)
        requires
            block < self.deep_view().blocks.len(),
        ensures
            found.deep_view() == self.deep_view().blocks[block as int],
    {
        &self.blocks[block]
    }

    /// The number of storage slots.
    pub fn slot_count(&self) -> (count: usize)
        ensures
            count == self.deep_view().slots.len(),
    {
        self.slots.len()
    }

    /// The name that the slot was allocated for.
    pub fn slot_name(&self, slot: SlotId) -> (name: &String)
        requires
            slot < self.deep_view().slots.len(),
        ensures
            name@ == self.deep_view().slots[slot as int],
    {
        &self.slots[slot]
    }

    /// Adds an empty, open block at the end.
    pub(crate) fn add_block(&mut self) -> (block: BlockId)
        ensures
            block == old(self).deep_view().blocks.len(),
            final(self).deep_view() == (SpecCompiler {
                blocks: old(self).deep_view().blocks.push(SpecBlock::empty()),
                slots: old(self).deep_view().slots,
            }),
    {
        let block: usize = self.blocks.len();
        let added = BasicBlock { instructions: Vec::new(), terminator: None };
        assert(added.deep_view().instructions =~= Seq::empty());
        self.blocks.push(added);
        assert(self.blocks.deep_view() =~= old(self).blocks.deep_view().push(SpecBlock::empty()));
        block
    }

    /// Appends an instruction to a block.
    pub(crate) fn emit(&mut self, block: BlockId, instruction: Instruction) -> (value: ValueRef)
        requires
            block < old(self).deep_view().blocks.len(),
        ensures
            value.deep_view() == (SpecValueRef {
                block: block as int,
                index: old(self).deep_view().blocks[block as int].instructions.len() as int,
            }),
            final(self).deep_view() == (SpecCompiler {
                blocks: old(self).deep_view().blocks.update(
                    block as int,
                    SpecBlock {
                        instructions: old(self).deep_view().blocks[block as int].instructions.push(
                            instruction.deep_view(),
                        ),
                        terminator: old(self).deep_view().blocks[block as int].terminator,
                    },
                ),
                slots: old(self).deep_view().slots,
            }),
    {
        let index: usize = self.blocks[block].instructions.len();
        let ghost before = self.blocks[block as int].deep_view();
        let ghost model = instruction.deep_view();
        self.blocks[block].instructions.push(instruction);
        proof {
            assert(self.blocks[block as int].deep_view().instructions =~= before.instructions.push(
                model,
            ));
            assert(self.blocks.deep_view() =~= old(self).blocks.deep_view().update(
                block as int,
                SpecBlock {
                    instructions: before.instructions.push(model),
                    terminator: before.terminator,
                },
            ));
        }
        ValueRef { block, index }
    }

    /// Closes a block with a terminator.
    pub(crate) fn seal(&mut self, block: BlockId, terminator: Terminator)
        requires
            block < old(self).deep_view().blocks.len(),
        ensures
            final(self).deep_view() == (SpecCompiler {
                blocks: old(self).deep_view().blocks.update(
                    block as int,
                    SpecBlock {
                        instructions: old(self).deep_view().blocks[block as int].instructions,
                        terminator: Some(terminator.deep_view()),
                    },
                ),
                slots: old(self).deep_view().slots,
            }),
    {
        let ghost before = self.blocks[block as int].deep_view();
        self.blocks[block].terminator = Some(terminator);
        proof {
            assert(self.blocks.deep_view() =~= old(self).blocks.deep_view().update(
                block as int,
                SpecBlock {
                    instructions: before.instructions,
                    terminator: Some(terminator.deep_view()),
                },
            ));
        }
    }

    /// Allocates a slot for `name`.
    pub(crate) fn add_slot(&mut self, name: String) -> (slot: SlotId)
        ensures
            slot == old(self).deep_view().slots.len(),
            final(self).deep_view() == (SpecCompiler {
                blocks: old(self).deep_view().blocks,
                slots: old(self).deep_view().slots.push(name@),
            }),
    {
        let slot: usize = self.slots.len();
        self.slots.push(name);
        assert(self.slots.deep_view() =~= old(self).slots.deep_view().push(name@));
        slot
    }
}

/// The slot that each name stands for, given the bindings in the order in
/// which they were made: a later binding of a name hides an earlier one.
pub open spec fn bindings(entries: Seq<(Seq<char>, usize)>) -> Map<Seq<char>, int>
    decreases entries.len(),
{
    if entries.len() == 0 {
        Map::empty()
    } else {
        bindings(entries.drop_last()).insert(entries.last().0, entries.last().1 as int)
    }
}

/// A name that is bound at `at` and not after it stands for the slot bound
/// at `at`.
pub proof fn lemma_last_binding_counts(entries: Seq<(Seq<char>, usize)>, at: int)
    requires
        0 <= at < entries.len(),
        forall|later: int|
            at < later < entries.len() ==> (#[trigger] entries[later]).0 != entries[at].0,
    ensures
        bindings(entries).contains_key(entries[at].0),
        bindings(entries)[entries[at].0] == entries[at].1,
    decreases entries.len(),
{
    if at < entries.len() - 1 {
        let shorter = entries.drop_last();
        assert(entries[entries.len() - 1].0 != entries[at].0);
        assert forall|later: int|
            at < later < shorter.len() implies (#[trigger] shorter[later]).0 != shorter[at].0
        by {
            assert(shorter[later] == entries[later]);
        }
        lemma_last_binding_counts(shorter, at);
    }
}

/// A name that is bound nowhere stands for nothing.
pub proof fn lemma_unbound_is_absent(entries: Seq<(Seq<char>, usize)>, name: Seq<char>)
    requires
        forall|at: int| 0 <= at < entries.len() ==> (#[trigger] entries[at]).0 != name,
    ensures
        !bindings(entries).contains_key(name),
    decreases entries.len(),
{
    if entries.len() > 0 {
        let shorter = entries.drop_last();
        assert forall|at: int|
            0 <= at < shorter.len() implies (#[trigger] shorter[at]).0 != name
        by {
            assert(shorter[at] == entries[at]);
        }
        lemma_unbound_is_absent(shorter, name);
        assert(entries[entries.len() - 1].0 != name);
    }
}

/// A name that stands for a slot is bound somewhere, and where it is bound
/// last it is bound to that slot.
pub proof fn lemma_bound_somewhere(entries: Seq<(Seq<char>, usize)>, name: Seq<char>) -> (at: int)
    requires
        bindings(entries).contains_key(name),
    ensures
        0 <= at < entries.len(),
        entries[at].0 == name,
        bindings(entries)[name] == entries[at].1,
        forall|later: int| at < later < entries.len() ==> (#[trigger] entries[later]).0 != name,
    decreases entries.len(),
{
    if entries.last().0 == name {
        entries.len() - 1
    } else {
        let shorter = entries.drop_last();
        let at = lemma_bound_somewhere(shorter, name);
        assert forall|later: int|
            at < later < entries.len() implies (#[trigger] entries[later]).0 != name
        by {
            if later < shorter.len() {
                assert(shorter[later] == entries[later]);
            }
        }
        at
    }
}

/// The names in scope in the function under construction, each with the
/// slot that holds its value.
pub struct Scope {
    variables: Vec<(String, SlotId)>,
}

impl View for Scope {
    type V = Map<Seq<char>, int>;

    closed spec fn view(&self) -> Map<Seq<char>, int> {
        bindings(self.variables.deep_view())
    }
}

impl Scope {
    /// A scope without names.
    pub fn new() -> (scope: Scope)
        ensures
            scope@ == Map::<Seq<char>, int>::empty(),
    {
        let scope = Scope { variables: Vec::new() };
        assert(scope.variables.deep_view() =~= Seq::empty());
        scope
    }

    /// Lets `name` stand for `slot` from here on.
    pub fn insert(&mut self, name: String, slot: SlotId)
        ensures
            final(self)@ == old(self)@.insert(name@, slot as int),
    {
        let ghost before = self.variables.deep_view();
        self.variables.push((name, slot));
        proof {
            let entries = self.variables.deep_view();
            assert(entries =~= before.push((name@, slot)));
            assert(entries.drop_last() =~= before);
        }
    }

    /// The slot that `name` stands for, if it is in scope.
    pub fn get(&self, name: &String) -> (slot: Option<SlotId>)
        ensures
            match slot {
                Some(found) => self@.contains_key(name@) && self@[name@] == found,
                None => !self@.contains_key(name@),
            },
    {
        let ghost entries = self.variables.deep_view();
        let mut i: usize = self.variables.len();
        while i > 0
            invariant
                i <= self.variables.len(),
                entries == self.variables.deep_view(),
                forall|later: int|
                    i <= later < entries.len() ==> (#[trigger] entries[later]).0 != name@,
            decreases i,
        {
            i -= 1;
            if self.variables[i].0 == *name {
                proof {
                    assert(entries[i as int].0 == name@);
                    lemma_last_binding_counts(entries, i as int);
                }
                return Some(self.variables[i].1);
            }
        }
        proof {
            lemma_unbound_is_absent(entries, name@);
        }
        None
    }
}

impl Scope {
    /// Whether every name in scope stands for one of the first `count`
    /// slots.
    pub fn stays_below(&self, count: usize) -> (holds: bool)
        ensures
            holds == (forall|name: Seq<char>|
                self@.contains_key(name) ==> 0 <= #[trigger] self@[name] < count),
    {
        let ghost entries = self.variables.deep_view();
        let mut i: usize = 0;
        while i < self.variables.len()
            invariant
                i <= self.variables.len(),
                entries == self.variables.deep_view(),
                forall|at: int|
                    0 <= at < i && (forall|later: int|
                        at < later < entries.len() ==> (#[trigger] entries[later]).0
                            != entries[at].0) ==> (#[trigger] entries[at]).1 < count,
            decreases self.variables.len() - i,
        {
            if self.variables[i].1 >= count {
                let mut hidden = false;
                let mut j: usize = i + 1;
                while j < self.variables.len()
                    invariant
                        i < j <= self.variables.len(),
                        entries == self.variables.deep_view(),
                        hidden == (exists|later: int|
                            i < later < j && (#[trigger] entries[later]).0 == entries[i as int].0),
                    decreases self.variables.len() - j,
                {
                    if self.variables[j].0 == self.variables[i].0 {
                        assert(entries[j as int].0 == entries[i as int].0);
                        hidden = true;
                    }
                    j += 1;
                }
                if !hidden {
                    proof {
                        assert forall|later: int|
                            i < later < entries.len() implies
                            (#[trigger] entries[later]).0 != entries[i as int].0
                        by {}
                        lemma_last_binding_counts(entries, i as int);
                        assert(self@.contains_key(entries[i as int].0));
                        assert(self@[entries[i as int].0] >= count);
                    }
                    return false;
                }
            }
            i += 1;
        }
        proof {
            assert forall|name: Seq<char>|
                self@.contains_key(name) implies
                0 <= #[trigger] self@[name] < count
            by {
                let at = lemma_bound_somewhere(entries, name);
            }
        }
        true
    }
}

/// The block numbers of a stack of loop exits as mathematical integers.
pub open spec fn exits_view(exits: Seq<BlockId>) -> Seq<int> {
    exits.map_values(|exit: BlockId| exit as int)
}

/// The place in the function under construction where code is being
/// added.
pub struct CompileMetadata {
    /// The block that code is being added to.
    pub basic_block: BlockId,
    /// The names in scope.
    pub function_scope: Scope,
    /// For each loop around that place, outermost first, the block that
    /// follows the loop.
    pub loop_exits: Vec<BlockId>,
}

impl CompileMetadata {
    /// The start of a function body: the cursor at `basic_block`, no name
    /// in scope, no loop around.
    pub fn new(basic_block: BlockId) -> (compile_meta: CompileMetadata)
        ensures
            compile_meta.basic_block == basic_block,
            compile_meta.function_scope@ == Map::<Seq<char>, int>::empty(),
            compile_meta.loop_exits@ == Seq::<BlockId>::empty(),
    {
        CompileMetadata { basic_block, function_scope: Scope::new(), loop_exits: Vec::new() }
    }
}

impl Compiler {
    /// Whether every terminator names a block of the function.
    pub fn is_closed(&self) -> (holds: bool)
        ensures
            holds == (forall|b: int|
                0 <= b < self.deep_view().blocks.len() ==> ((
                #[trigger] self.deep_view().blocks[b]).terminator matches Some(terminator)
                    ==> terminator.stays_within(self.deep_view().blocks.len() as int))),
    {
        let count: usize = self.blocks.len();
        let mut i: usize = 0;
        while i < count
            invariant
                i <= count == self.blocks.len(),
                forall|b: int|
                    0 <= b < i ==> ((#[trigger] self.deep_view().blocks[b]).terminator matches Some(
                        terminator,
                    ) ==> terminator.stays_within(count as int)),
            decreases count - i,
        {
            let inside = match self.blocks[i].terminator {
                None => true,
                Some(Terminator::Jump { target }) => target < count,
                Some(Terminator::Branch { on_true, on_false, .. }) => on_true < count && on_false
                    < count,
            };
            if !inside {
                proof {
                    let block = self.deep_view().blocks[i as int];
                    assert(block.terminator is Some);
                    assert(!block.terminator->Some_0.stays_within(count as int));
                }
                return false;
            }
            i += 1;
        }
        true
    }
}

impl CompileMetadata {
    /// Whether the metadata fits the function under construction: whether
    /// lowering can go on from here.
    pub fn fits(&self, compiler: &Compiler) -> (holds: bool)
        ensures
            holds == lowering(*compiler, *self).wf(),
    {
        let ghost state = lowering(*compiler, *self);
        let count: usize = compiler.block_count();
        if self.basic_block >= count {
            return false;
        }
        if compiler.block(self.basic_block).terminator.is_some() {
            return false;
        }
        if !compiler.is_closed() {
            return false;
        }
        if !self.function_scope.stays_below(compiler.slot_count()) {
            proof {
                let scope = self.function_scope@;
                let name = choose|name: Seq<char>|
                    scope.contains_key(name) && !(0 <= #[trigger] scope[name]
                        < compiler.deep_view().slots.len());
                assert(state.scope.contains_key(name));
                assert(!(0 <= state.scope[name] < state.slots.len()));
            }
            return false;
        }
        let mut i: usize = 0;
        while i < self.loop_exits.len()
            invariant
                i <= self.loop_exits.len(),
                state == lowering(*compiler, *self),
                count == state.blocks.len(),
                forall|k: int|
                    0 <= k < i ==> {
                        let exit = #[trigger] state.loop_exits[k];
                        &&& 0 <= exit < state.blocks.len()
                        &&& exit != state.cursor
                        &&& state.blocks[exit].terminator is None
                    },
            decreases self.loop_exits.len() - i,
        {
            let exit: usize = self.loop_exits[i];
            assert(state.loop_exits[i as int] == exit);
            if exit >= count || exit == self.basic_block {
                return false;
            }
            if compiler.block(exit).terminator.is_some() {
                return false;
            }
            i += 1;
        }
        true
    }
}

/// The state of the lowering that a compiler and its metadata stand for.
pub open spec fn lowering(compiler: Compiler, compile_meta: CompileMetadata) -> Lowering {
    Lowering {
        blocks: compiler.deep_view().blocks,
        slots: compiler.deep_view().slots,
        cursor: compile_meta.basic_block as int,
        scope: compile_meta.function_scope@,
        loop_exits: exits_view(compile_meta.loop_exits@),
    }
}

/// Lowers the statements of `tree` in order at the cursor, and leaves the
/// cursor at the block in which execution goes on after them. The first
/// statement that cannot be lowered ends the compilation with its error.
pub fn compile(
    compiler: &mut Compiler,
    tree: &Tree,
    compile_meta: &mut CompileMetadata,
) -> (outcome:
    Result<(), CompileError>)
    requires
        lowering(*old(compiler), *old(compile_meta)).wf(),
    ensures
        compiled(
            lowering(*old(compiler), *old(compile_meta)),
            lower_nodes(lowering(*old(compiler), *old(compile_meta)), tree.deep_view(), 0),
            outcome,
            lowering(*final(compiler), *final(compile_meta)),
        ),
    decreases tree,
{
    let ghost before = lowering(*compiler, *compile_meta);
    let ghost nodes = tree.deep_view();
    let ghost expected = lower_nodes(before, nodes, 0);
    let mut i: usize = 0;
    while i < tree.len()
        invariant
            i <= tree.len(),
            nodes == tree.deep_view(),
            before == lowering(*old(compiler), *old(compile_meta)),
            expected == lower_nodes(before, nodes, 0),
            lowering(*compiler, *compile_meta).wf(),
            lower_nodes(lowering(*compiler, *compile_meta), nodes, i as int) == expected,
        decreases tree.len() - i,
    {
        match compile_one(compiler, &tree[i], compile_meta) {
            Ok(()) => {},
            Err(error) => return Err(error),
        }
        i += 1;
    }
    proof {
        lemma_nodes_extend(before, nodes, 0);
        if before.is_sound() {
            lemma_nodes_are_sound(before, nodes, 0);
        }
    }
    Ok(())
}

/// Lowers one statement at the cursor.
pub fn compile_one(
    compiler: &mut Compiler,
    node: &Node,
    compile_meta: &mut CompileMetadata,
) -> (outcome:
    Result<(), CompileError>)
    requires
        lowering(*old(compiler), *old(compile_meta)).wf(),
    ensures
        compiled(
            lowering(*old(compiler), *old(compile_meta)),
            lower_node(lowering(*old(compiler), *old(compile_meta)), node.deep_view()),
            outcome,
            lowering(*final(compiler), *final(compile_meta)),
        ),
    decreases node,
{
    match node {
        Node::Loop(repeat) => repeat.compile(compiler, compile_meta),
        Node::Break(leave) => leave.compile(compiler, compile_meta),
        Node::Call(call) => call.compile(compiler, compile_meta),
        Node::Variable(variable) => variable.compile(compiler, compile_meta),
        Node::If(chain) => chain.compile(compiler, compile_meta),
        Node::Function(_) => Err(CompileError::Unsupported { construct: Construct::Function }),
        Node::Throw(_) => Err(CompileError::Unsupported { construct: Construct::Throw }),
        Node::Import(_) => Err(CompileError::Unsupported { construct: Construct::Import }),
        Node::Module(_) => Err(CompileError::Unsupported { construct: Construct::Module }),
        Node::TryCatch(_) => Err(CompileError::Unsupported { construct: Construct::TryCatch }),
        Node::Assignment(_) => Err(CompileError::Unsupported { construct: Construct::Assignment }),
        Node::Class(_) => Err(CompileError::Unsupported { construct: Construct::Class }),
        Node::Return(_) => Err(CompileError::Unsupported { construct: Construct::Return }),
        Node::Expr(_) => Err(CompileError::ExprIsStatement),
    }
}

} // verus!

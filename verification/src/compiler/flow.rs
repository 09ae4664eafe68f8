//! The control-flow graph that lowering produces: basic blocks of
//! instructions, each closed by a terminator that names where control goes
//! next.
//!
//! A value has no name of its own: it is known by the instruction that
//! computes it, that is by a block and a position in that block.
use crate::parser::{ConditionalOperator, MathOperator, Number};
use vstd::prelude::*;

verus! {

/// The number of a basic block within its function.
pub type BlockId = usize;

/// The number of a storage slot within its function.
pub type SlotId = usize;

/// The value computed by the instruction at `index` in block `block`.
#[derive(Clone, Copy, Debug, PartialEq, Eq, Hash, Structural)]
pub struct ValueRef {
    pub block: BlockId,
    pub index: usize,
}

pub ghost struct SpecValueRef {
    pub block: int,
    pub index: int,
}

impl DeepView for ValueRef {
    type V = SpecValueRef;

    open spec fn deep_view(&self) -> SpecValueRef {
        SpecValueRef { block: self.block as int, index: self.index as int }
    }
}

/// One step of straight-line code.
#[derive(Clone, Debug, PartialEq, Eq)]
pub enum Instruction {
    /// Yields a number.
    Number { value: Number },
    /// Yields a string.
    Text { value: String },
    /// Yields what the slot holds.
    Load { slot: SlotId },
    /// Puts a value into the slot.
    Store { slot: SlotId, value: ValueRef },
    /// Yields `left operator right`.
    Arithmetic { operator: MathOperator, left: ValueRef, right: ValueRef },
    /// Yields whether `left operator right` holds.
    Compare { operator: ConditionalOperator, left: ValueRef, right: ValueRef },
    /// Calls the function of that name; what it returns is dropped.
    Call { callee: String, args: Vec<ValueRef> },
}

pub ghost enum SpecInstruction {
    Number { value: Number },
    Text { value: Seq<char> },
    Load { slot: int },
    Store { slot: int, value: SpecValueRef },
    Arithmetic { operator: MathOperator, left: SpecValueRef, right: SpecValueRef },
    Compare { operator: ConditionalOperator, left: SpecValueRef, right: SpecValueRef },
    Call { callee: Seq<char>, args: Seq<SpecValueRef> },
}

impl DeepView for Instruction {
    type V = SpecInstruction;

    open spec fn deep_view(&self) -> SpecInstruction {
        match self {
            Instruction::Number { value } => SpecInstruction::Number { value: *value },
            Instruction::Text { value } => SpecInstruction::Text { value: value@ },
            Instruction::Load { slot } => SpecInstruction::Load { slot: *slot as int },
            Instruction::Store { slot, value } => SpecInstruction::Store {
                slot: *slot as int,
                value: value.deep_view(),
            },
            Instruction::Arithmetic { operator, left, right } => SpecInstruction::Arithmetic {
                operator: *operator,
                left: left.deep_view(),
                right: right.deep_view(),
            },
            Instruction::Compare { operator, left, right } => SpecInstruction::Compare {
                operator: *operator,
                left: left.deep_view(),
                right: right.deep_view(),
            },
            Instruction::Call { callee, args } => SpecInstruction::Call {
                callee: callee@,
                args: args.deep_view(),
            },
        }
    }
}

/// How a basic block ends.
#[derive(Clone, Copy, Debug, PartialEq, Eq, Hash, Structural)]
pub enum Terminator {
    /// Control goes to `target`.
    Jump { target: BlockId },
    /// Control goes to `on_true` if `condition` holds, else to `on_false`.
    Branch { condition: ValueRef, on_true: BlockId, on_false: BlockId },
}

pub ghost enum SpecTerminator {
    Jump { target: int },
    Branch { condition: SpecValueRef, on_true: int, on_false: int },
}

impl DeepView for Terminator {
    type V = SpecTerminator;

    open spec fn deep_view(&self) -> SpecTerminator {
        match self {
            Terminator::Jump { target } => SpecTerminator::Jump { target: *target as int },
            Terminator::Branch { condition, on_true, on_false } => SpecTerminator::Branch {
                condition: condition.deep_view(),
                on_true: *on_true as int,
                on_false: *on_false as int,
            },
        }
    }
}

impl SpecTerminator {
    /// Whether every block that the terminator names is at least `fresh` or
    /// one of `exits`.
    pub open spec fn leads_past(self, fresh: int, exits: Seq<int>) -> bool {
        match self {
            SpecTerminator::Jump { target } => fresh <= target || exits.contains(target),
            SpecTerminator::Branch { on_true, on_false, .. } => (fresh <= on_true
                || exits.contains(on_true)) && (fresh <= on_false || exits.contains(on_false)),
        }
    }

    /// Whether every block that the terminator names is one of the first
    /// `count` blocks.
    pub open spec fn stays_within(self, count: int) -> bool {
        match self {
            SpecTerminator::Jump { target } => 0 <= target < count,
            SpecTerminator::Branch { on_true, on_false, .. } => 0 <= on_true < count && 0
                <= on_false < count,
        }
    }
}

/// A run of instructions with one way in and, once it is closed, one
/// terminator. A block without a terminator is still open: code can be
/// added to it, and at the end of the function it falls through to the
/// return.
#[derive(Clone, Debug, PartialEq, Eq)]
pub struct BasicBlock {
    pub instructions: Vec<Instruction>,
    pub terminator: Option<Terminator>,
}

pub ghost struct SpecBlock {
    pub instructions: Seq<SpecInstruction>,
    pub terminator: Option<SpecTerminator>,
}

impl DeepView for BasicBlock {
    type V = SpecBlock;

    open spec fn deep_view(&self) -> SpecBlock {
        SpecBlock {
            instructions: self.instructions.deep_view(),
            terminator: match self.terminator {
                Some(terminator) => Some(terminator.deep_view()),
                None => None,
            },
        }
    }
}

impl SpecBlock {
    /// A block without code and without a terminator.
    pub open spec fn empty() -> SpecBlock {
        SpecBlock { instructions: Seq::empty(), terminator: None }
    }
}

} // verus!

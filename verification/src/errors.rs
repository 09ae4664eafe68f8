//! The ways in which building or lowering a program can fail.
use crate::syntax::{Position, Rule};
use vstd::prelude::*;
use vstd::string::StringExecFns;

verus! {

/// What is wrong with the program text.
#[derive(Clone, Copy, Debug, PartialEq, Eq, Hash, Structural)]
pub enum SyntaxErrorKind {
    /// The grammar engine could not match the text at all.
    Unparsable,
    /// A modifier that the declaration does not know.
    InvalidModifier,
    /// Two parameters of one function share a name.
    DuplicateArguments,
    /// A statement stands where a value is needed.
    NotAnExpression,
    /// A string or number literal cannot be read.
    MalformedLiteral,
}

/// Which shape the builder met that it has no case for.
#[derive(Clone, Copy, Debug, PartialEq, Eq, Hash, Structural)]
pub enum BugKind {
    /// A node lacks a child that its production always has.
    MissingChild,
    /// The sign of a number is neither plus nor minus.
    InvalidSign,
    /// A catch clause starts with neither a block nor an identifier.
    CatchNotBlockOrIdent,
    /// An arithmetic operator outside the known set.
    UnknownOperator,
    /// A comparison operator outside the known set.
    UnknownCondOperator,
    /// A branch of a conditional that is neither `if`, `else if` nor `else`.
    InvalidIfNode,
    /// An index that is neither a number nor a string.
    InvalidIndexTerm,
    /// A term form that the builder cannot represent yet.
    UnsupportedTerm,
    /// A node that is neither a statement nor an expression.
    UnexpectedRule,
}

/// Why the syntax tree could not be turned into an abstract syntax tree.
///
/// A syntax error is the user's to fix and points into the source text; a bug
/// means that grammar and builder disagree, which no program text should be
/// able to cause.
#[derive(Clone, Copy, Debug, PartialEq, Eq, Hash, Structural)]
pub enum BuildError {
    Syntax { kind: SyntaxErrorKind, position: Position },
    Bug { code: BugKind, rule: Rule },
}

/// A construct that the tree can hold and that has no lowering yet.
#[derive(Clone, Copy, Debug, PartialEq, Eq, Hash, Structural)]
pub enum Construct {
    Function,
    Throw,
    Import,
    Module,
    TryCatch,
    Assignment,
    Class,
    Return,
    IndexExpr,
}

/// Why a tree could not be lowered. Any of these ends the compilation: no
/// part of the graph built so far is to be used.
#[derive(Clone, Copy, Debug, PartialEq, Eq, Hash, Structural)]
pub enum CompileError {
    /// A `Break` with no loop around it.
    BreakOutsideLoop,
    /// A name is read that no declaration before it has bound.
    UnboundIdentifier,
    /// The construct has no lowering yet.
    Unsupported { construct: Construct },
    /// An operator chain is empty, lacks an operator between two operands,
    /// or ends in an operator.
    MalformedChain,
    /// An `Else` stands before the end of its chain.
    MisplacedElse,
    /// An expression stands where a statement is needed.
    ExprIsStatement,
}

/// The class of a [`CompileError`], by which it is reported.
#[derive(Clone, Copy, Debug, PartialEq, Eq, Hash, Structural)]
pub enum CompileErrorClass {
    /// The program transfers control, or reads a name, where it cannot.
    ControlFlowIntegrity,
    /// The program uses a part of the language that cannot be compiled yet.
    NotImplemented,
    /// The tree has a shape that no program text can cause: a defect of the
    /// compiler or of whoever built the tree.
    Bug,
}

impl CompileError {
    pub open spec fn spec_class(self) -> CompileErrorClass {
        match self {
            CompileError::BreakOutsideLoop | CompileError::UnboundIdentifier => {
                CompileErrorClass::ControlFlowIntegrity
            },
            CompileError::Unsupported { .. } => CompileErrorClass::NotImplemented,
            CompileError::MalformedChain
            | CompileError::MisplacedElse
            | CompileError::ExprIsStatement => CompileErrorClass::Bug,
        }
    }

    /// The class under which the error is reported.
    pub fn class(&self) -> (class: CompileErrorClass)
        ensures
            class == self.spec_class(),
    {
        match self {
            CompileError::BreakOutsideLoop | CompileError::UnboundIdentifier => {
                CompileErrorClass::ControlFlowIntegrity
            },
            CompileError::Unsupported { .. } => CompileErrorClass::NotImplemented,
            CompileError::MalformedChain
            | CompileError::MisplacedElse
            | CompileError::ExprIsStatement => CompileErrorClass::Bug,
        }
    }
}

impl SyntaxErrorKind {
    /// The text shown to the user for this kind of error.
    pub open spec fn spec_message(self) -> Seq<char> {
        match self {
            SyntaxErrorKind::Unparsable => "Unexpected input"@,
            SyntaxErrorKind::InvalidModifier => "Invalid modifier"@,
            SyntaxErrorKind::DuplicateArguments => "Duplicate arguments"@,
            SyntaxErrorKind::NotAnExpression => "Value is not an expression"@,
            SyntaxErrorKind::MalformedLiteral => "Malformed literal"@,
        }
    }

    pub fn message(&self) -> (text: String)
        ensures
            text@ == self.spec_message(),
    {
        match self {
            SyntaxErrorKind::Unparsable => String::from_str("Unexpected input"),
            SyntaxErrorKind::InvalidModifier => String::from_str("Invalid modifier"),
            SyntaxErrorKind::DuplicateArguments => String::from_str("Duplicate arguments"),
            SyntaxErrorKind::NotAnExpression => String::from_str("Value is not an expression"),
            SyntaxErrorKind::MalformedLiteral => String::from_str("Malformed literal"),
        }
    }
}

impl BugKind {
    /// The code under which a defect of this kind is reported.
    pub open spec fn spec_code(self) -> Seq<char> {
        match self {
            BugKind::MissingChild => "MISSING_CHILD"@,
            BugKind::InvalidSign => "INVALID_SIGN"@,
            BugKind::CatchNotBlockOrIdent => "CATCH_NOT_BLOCK_OR_IDENT"@,
            BugKind::UnknownOperator => "UNKNOWN_OPERATOR"@,
            BugKind::UnknownCondOperator => "UNKNOWN_COND_OPERATOR"@,
            BugKind::InvalidIfNode => "INVALID_IFNODE"@,
            BugKind::InvalidIndexTerm => "INVALID_INDEX_TERM"@,
            BugKind::UnsupportedTerm => "UNSUPPORTED_TERM"@,
            BugKind::UnexpectedRule => "UNEXPECTED_RULE"@,
        }
    }

    pub fn code(&self) -> (text: String)
        ensures
            text@ == self.spec_code(),
    {
        match self {
            BugKind::MissingChild => String::from_str("MISSING_CHILD"),
            BugKind::InvalidSign => String::from_str("INVALID_SIGN"),
            BugKind::CatchNotBlockOrIdent => String::from_str("CATCH_NOT_BLOCK_OR_IDENT"),
            BugKind::UnknownOperator => String::from_str("UNKNOWN_OPERATOR"),
            BugKind::UnknownCondOperator => String::from_str("UNKNOWN_COND_OPERATOR"),
            BugKind::InvalidIfNode => String::from_str("INVALID_IFNODE"),
            BugKind::InvalidIndexTerm => String::from_str("INVALID_INDEX_TERM"),
            BugKind::UnsupportedTerm => String::from_str("UNSUPPORTED_TERM"),
            BugKind::UnexpectedRule => String::from_str("UNEXPECTED_RULE"),
        }
    }
}

impl BuildError {
    /// Whether the error is the user's to fix.
    pub fn is_user_error(&self) -> (user: bool)
        ensures
            user == (self is Syntax),
    {
        match self {
            BuildError::Syntax { .. } => true,
            BuildError::Bug { .. } => false,
        }
    }
}

} // verus!

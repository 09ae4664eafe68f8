//! The abstract syntax tree, and the functions that build it from the syntax
//! tree of a whole program.
//!
//! Every type of the tree has a mathematical model, reached by `deep_view`,
//! in which strings are sequences of characters and vectors are sequences.
//! The builder's contracts are stated over these models.
use crate::errors::{BugKind, BuildError, SyntaxErrorKind};
use crate::parser::from_pair::{modeled, Parse};
use crate::syntax::{lemma_pair_view, Position, Rule, SpecPair, SyntaxPair};
use vstd::prelude::*;

pub mod from_pair;
pub mod guarantees;

verus! {

/// A signed number literal.
pub type Number = i64;

/// The statements of a program or of a body, in execution order.
pub type Tree = Vec<Node>;

/// A name. Two names are the same if they are the same text, letter for
/// letter.
#[derive(Clone, Debug, PartialEq, Eq, Hash)]
pub struct Ident(pub String);

impl DeepView for Ident {
    type V = Seq<char>;

    open spec fn deep_view(&self) -> Seq<char> {
        self.0@
    }
}

/// The declared type of a binding.
#[derive(Clone, Debug, PartialEq, Eq)]
pub struct Type {
    pub ident: Ident,
    pub is_array: bool,
}

pub ghost struct SpecType {
    pub ident: Seq<char>,
    pub is_array: bool,
}

impl DeepView for Type {
    type V = SpecType;

    open spec fn deep_view(&self) -> SpecType {
        SpecType { ident: self.ident.deep_view(), is_array: self.is_array }
    }
}

/// A name with an optional type. Without a type the binding is untyped.
#[derive(Clone, Debug, PartialEq, Eq)]
pub struct Declaration {
    pub ident: Ident,
    pub ty: Option<Type>,
}

pub ghost struct SpecDeclaration {
    pub ident: Seq<char>,
    pub ty: Option<SpecType>,
}

impl DeepView for Declaration {
    type V = SpecDeclaration;

    open spec fn deep_view(&self) -> SpecDeclaration {
        SpecDeclaration {
            ident: self.ident.deep_view(),
            ty: match self.ty {
                Some(ty) => Some(ty.deep_view()),
                None => None,
            },
        }
    }
}

/// A leaf of an expression.
#[derive(Clone, Debug, PartialEq, Eq)]
pub enum Term {
    String(String),
    Number(Number),
    Ident(Ident),
}

pub ghost enum SpecTerm {
    String(Seq<char>),
    Number(Number),
    Ident(Seq<char>),
}

impl DeepView for Term {
    type V = SpecTerm;

    open spec fn deep_view(&self) -> SpecTerm {
        match self {
            Term::String(text) => SpecTerm::String(text@),
            Term::Number(value) => SpecTerm::Number(*value),
            Term::Ident(ident) => SpecTerm::Ident(ident.deep_view()),
        }
    }
}

#[derive(Clone, Copy, Debug, PartialEq, Eq, Hash, Structural)]
pub enum MathOperator {
    Add,
    Subtract,
    Multiply,
    Divide,
    XOR,
}

#[derive(Clone, Copy, Debug, PartialEq, Eq, Hash, Structural)]
pub enum ConditionalOperator {
    Equality,
    AntiEquality,
}

/// One operand of an arithmetic chain, with the operator that joins it to
/// the operand after it. The last operand of a chain has no operator.
#[derive(Clone, Debug, PartialEq, Eq)]
pub struct BinaryExprTerm {
    pub operand: Term,
    pub operator: Option<MathOperator>,
}

pub ghost struct SpecBinaryExprTerm {
    pub operand: SpecTerm,
    pub operator: Option<MathOperator>,
}

impl DeepView for BinaryExprTerm {
    type V = SpecBinaryExprTerm;

    open spec fn deep_view(&self) -> SpecBinaryExprTerm {
        SpecBinaryExprTerm { operand: self.operand.deep_view(), operator: self.operator }
    }
}

/// A chain of operands joined by arithmetic operators, applied from left to
/// right.
#[derive(Clone, Debug, PartialEq, Eq)]
pub struct BinaryExpr {
    pub terms: Vec<BinaryExprTerm>,
}

impl DeepView for BinaryExpr {
    type V = Seq<SpecBinaryExprTerm>;

    open spec fn deep_view(&self) -> Seq<SpecBinaryExprTerm> {
        self.terms.deep_view()
    }
}

/// One operand of a comparison chain, with the operator that joins it to the
/// operand after it.
#[derive(Clone, Debug, PartialEq, Eq)]
pub struct ConditionExprTerm {
    pub operand: Term,
    pub operator: Option<ConditionalOperator>,
}

pub ghost struct SpecConditionExprTerm {
    pub operand: SpecTerm,
    pub operator: Option<ConditionalOperator>,
}

impl DeepView for ConditionExprTerm {
    type V = SpecConditionExprTerm;

    open spec fn deep_view(&self) -> SpecConditionExprTerm {
        SpecConditionExprTerm { operand: self.operand.deep_view(), operator: self.operator }
    }
}

/// A chain of operands joined by comparisons, applied from left to right.
#[derive(Clone, Debug, PartialEq, Eq)]
pub struct ConditionalExpr {
    pub terms: Vec<ConditionExprTerm>,
}

impl DeepView for ConditionalExpr {
    type V = Seq<SpecConditionExprTerm>;

    open spec fn deep_view(&self) -> Seq<SpecConditionExprTerm> {
        self.terms.deep_view()
    }
}

/// The position or the key at which a term is indexed.
#[derive(Clone, Debug, PartialEq, Eq)]
pub enum Index {
    Number(Number),
    String(String),
}

pub ghost enum SpecIndex {
    Number(Number),
    String(Seq<char>),
}

impl DeepView for Index {
    type V = SpecIndex;

    open spec fn deep_view(&self) -> SpecIndex {
        match self {
            Index::Number(value) => SpecIndex::Number(*value),
            Index::String(text) => SpecIndex::String(text@),
        }
    }
}

#[derive(Clone, Debug, PartialEq, Eq)]
pub struct IndexExpr {
    pub term: Term,
    pub index: Index,
}

pub ghost struct SpecIndexExpr {
    pub term: SpecTerm,
    pub index: SpecIndex,
}

impl DeepView for IndexExpr {
    type V = SpecIndexExpr;

    open spec fn deep_view(&self) -> SpecIndexExpr {
        SpecIndexExpr { term: self.term.deep_view(), index: self.index.deep_view() }
    }
}

/// Anything that yields a value.
#[derive(Clone, Debug, PartialEq, Eq)]
pub enum Expr {
    BinaryExpr(BinaryExpr),
    ConditionalExpr(ConditionalExpr),
    IndexExpr(IndexExpr),
    Term(Term),
}

pub ghost enum SpecExpr {
    BinaryExpr(Seq<SpecBinaryExprTerm>),
    ConditionalExpr(Seq<SpecConditionExprTerm>),
    IndexExpr(SpecIndexExpr),
    Term(SpecTerm),
}

impl DeepView for Expr {
    type V = SpecExpr;

    open spec fn deep_view(&self) -> SpecExpr {
        match self {
            Expr::BinaryExpr(chain) => SpecExpr::BinaryExpr(chain.deep_view()),
            Expr::ConditionalExpr(chain) => SpecExpr::ConditionalExpr(chain.deep_view()),
            Expr::IndexExpr(index) => SpecExpr::IndexExpr(index.deep_view()),
            Expr::Term(term) => SpecExpr::Term(term.deep_view()),
        }
    }
}

#[derive(Clone, Copy, Debug, PartialEq, Eq, Hash, Structural)]
pub enum FunctionMod {
    Debug,
    Public,
}

#[derive(Clone, Copy, Debug, PartialEq, Eq, Hash, Structural)]
pub enum VariableMod {
    Public,
}

/// A binding of a new name to a value.
#[derive(Clone, Debug, PartialEq, Eq)]
pub struct Variable {
    pub modifiers: Vec<VariableMod>,
    pub declaration: Declaration,
    pub value: Expr,
}

pub ghost struct SpecVariable {
    pub modifiers: Seq<VariableMod>,
    pub declaration: SpecDeclaration,
    pub value: SpecExpr,
}

impl DeepView for Variable {
    type V = SpecVariable;

    open spec fn deep_view(&self) -> SpecVariable {
        SpecVariable {
            modifiers: self.modifiers@,
            declaration: self.declaration.deep_view(),
            value: self.value.deep_view(),
        }
    }
}

/// A call of a function by name. Each argument is a single term.
#[derive(Clone, Debug, PartialEq, Eq)]
pub struct Call {
    pub ident: Ident,
    pub args: Vec<Term>,
}

pub ghost struct SpecCall {
    pub ident: Seq<char>,
    pub args: Seq<SpecTerm>,
}

impl DeepView for Call {
    type V = SpecCall;

    open spec fn deep_view(&self) -> SpecCall {
        SpecCall { ident: self.ident.deep_view(), args: self.args.deep_view() }
    }
}

/// A new value for a name that is already bound.
#[derive(Clone, Debug, PartialEq, Eq)]
pub struct Assignment {
    pub ident: Ident,
    pub value: Expr,
}

pub ghost struct SpecAssignment {
    pub ident: Seq<char>,
    pub value: SpecExpr,
}

impl DeepView for Assignment {
    type V = SpecAssignment;

    open spec fn deep_view(&self) -> SpecAssignment {
        SpecAssignment { ident: self.ident.deep_view(), value: self.value.deep_view() }
    }
}

#[derive(Clone, Debug, PartialEq, Eq)]
pub struct Throw {
    pub value: Expr,
}

impl DeepView for Throw {
    type V = SpecExpr;

    open spec fn deep_view(&self) -> SpecExpr {
        self.value.deep_view()
    }
}

#[derive(Clone, Debug, PartialEq, Eq)]
pub struct Return {
    pub value: Expr,
}

impl DeepView for Return {
    type V = SpecExpr;

    open spec fn deep_view(&self) -> SpecExpr {
        self.value.deep_view()
    }
}

#[derive(Clone, Debug, PartialEq, Eq)]
pub struct Import {
    pub path: Term,
}

impl DeepView for Import {
    type V = SpecTerm;

    open spec fn deep_view(&self) -> SpecTerm {
        self.path.deep_view()
    }
}

#[derive(Clone, Debug, PartialEq, Eq)]
pub struct Module {
    pub ident: Ident,
}

impl DeepView for Module {
    type V = Seq<char>;

    open spec fn deep_view(&self) -> Seq<char> {
        self.ident.deep_view()
    }
}

/// Leaves the nearest enclosing loop.
#[derive(Clone, Copy, Debug, PartialEq, Eq, Hash, Structural)]
pub struct Break;

impl DeepView for Break {
    type V = Break;

    open spec fn deep_view(&self) -> Break {
        *self
    }
}

/// A function with its parameters and body. No two parameters share a name.
#[derive(Debug, PartialEq, Eq)]
pub struct Function {
    pub modifiers: Vec<FunctionMod>,
    pub declaration: Declaration,
    pub args: Vec<Declaration>,
    pub body: Tree,
}

/// A body that repeats until a `Break` leaves it.
#[derive(Debug, PartialEq, Eq)]
pub struct Loop {
    pub body: Tree,
}

/// A condition and the body to run when it holds.
#[derive(Debug, PartialEq, Eq)]
pub struct IfCase {
    pub expr: Expr,
    pub body: Tree,
}

/// The body to run when no condition of the chain holds.
#[derive(Debug, PartialEq, Eq)]
pub struct Else {
    pub body: Tree,
}

#[derive(Debug, PartialEq, Eq)]
pub enum IfNode {
    Case(IfCase),
    Else(Else),
}

/// A chain of conditions, tried in order; the first that holds wins. An
/// `Else`, if there is one, comes last.
#[derive(Debug, PartialEq, Eq)]
pub struct IfBlock {
    pub if_nodes: Vec<IfNode>,
}

/// The guarded body of a `TryCatch`.
#[derive(Debug, PartialEq, Eq)]
pub struct Try(pub Tree);

/// The handler of a `TryCatch`, with the name bound to what was thrown.
#[derive(Debug, PartialEq, Eq)]
pub struct Catch(pub Option<Ident>, pub Tree);

#[derive(Debug, PartialEq, Eq)]
pub struct TryCatch {
    pub try_block: Try,
    pub catch_block: Catch,
}

#[derive(Debug, PartialEq, Eq)]
pub struct Class {
    pub ident: Ident,
    pub body: Tree,
}

/// A statement.
#[derive(Debug, PartialEq, Eq)]
pub enum Node {
    Loop(Loop),
    Break(Break),
    Function(Function),
    Call(Call),
    Throw(Throw),
    Import(Import),
    Module(Module),
    TryCatch(TryCatch),
    Variable(Variable),
    Assignment(Assignment),
    If(IfBlock),
    Class(Class),
    Return(Return),
    /// An expression standing alone. The builder produces it wherever a value
    /// is read; the compiler refuses it as a statement.
    Expr(Expr),
}

pub ghost struct SpecFunction {
    pub modifiers: Seq<FunctionMod>,
    pub declaration: SpecDeclaration,
    pub args: Seq<SpecDeclaration>,
    pub body: Seq<SpecNode>,
}

pub ghost struct SpecIfCase {
    pub expr: SpecExpr,
    pub body: Seq<SpecNode>,
}

pub ghost enum SpecIfNode {
    Case(SpecIfCase),
    Else(Seq<SpecNode>),
}

pub ghost struct SpecTryCatch {
    pub try_block: Seq<SpecNode>,
    pub catch_ident: Option<Seq<char>>,
    pub catch_block: Seq<SpecNode>,
}

pub ghost struct SpecClass {
    pub ident: Seq<char>,
    pub body: Seq<SpecNode>,
}

pub ghost enum SpecNode {
    Loop(Seq<SpecNode>),
    Break,
    Function(SpecFunction),
    Call(SpecCall),
    Throw(SpecExpr),
    Import(SpecTerm),
    Module(Seq<char>),
    TryCatch(SpecTryCatch),
    Variable(SpecVariable),
    Assignment(SpecAssignment),
    If(Seq<SpecIfNode>),
    Class(SpecClass),
    Return(SpecExpr),
    Expr(SpecExpr),
}

/// The model of a sequence of statements.
pub open spec fn tree_view(tree: Tree) -> Seq<SpecNode>
    decreases tree,
{
    Seq::new(
        tree.len() as nat,
        |i: int| if 0 <= i < tree.len() { tree[i].deep_view() } else { arbitrary() },
    )
}

impl DeepView for Function {
    type V = SpecFunction;

    open spec fn deep_view(&self) -> SpecFunction
        decreases self,
    {
        SpecFunction {
            modifiers: self.modifiers@,
            declaration: self.declaration.deep_view(),
            args: self.args.deep_view(),
            body: tree_view(self.body),
        }
    }
}

impl DeepView for Loop {
    type V = Seq<SpecNode>;

    open spec fn deep_view(&self) -> Seq<SpecNode>
        decreases self,
    {
        tree_view(self.body)
    }
}

impl DeepView for IfCase {
    type V = SpecIfCase;

    open spec fn deep_view(&self) -> SpecIfCase
        decreases self,
    {
        SpecIfCase { expr: self.expr.deep_view(), body: tree_view(self.body) }
    }
}

impl DeepView for Else {
    type V = Seq<SpecNode>;

    open spec fn deep_view(&self) -> Seq<SpecNode>
        decreases self,
    {
        tree_view(self.body)
    }
}

impl DeepView for IfNode {
    type V = SpecIfNode;

    open spec fn deep_view(&self) -> SpecIfNode
        decreases self,
    {
        match self {
            IfNode::Case(case) => SpecIfNode::Case(case.deep_view()),
            IfNode::Else(otherwise) => SpecIfNode::Else(otherwise.deep_view()),
        }
    }
}

impl DeepView for IfBlock {
    type V = Seq<SpecIfNode>;

    open spec fn deep_view(&self) -> Seq<SpecIfNode>
        decreases self,
    {
        Seq::new(
            self.if_nodes.len() as nat,
            |i: int|
                if 0 <= i < self.if_nodes.len() {
                    self.if_nodes[i].deep_view()
                } else {
                    arbitrary()
                },
        )
    }
}

impl DeepView for TryCatch {
    type V = SpecTryCatch;

    open spec fn deep_view(&self) -> SpecTryCatch
        decreases self,
    {
        SpecTryCatch {
            try_block: tree_view(self.try_block.0),
            catch_ident: match self.catch_block.0 {
                Some(ident) => Some(ident.deep_view()),
                None => None,
            },
            catch_block: tree_view(self.catch_block.1),
        }
    }
}

impl DeepView for Class {
    type V = SpecClass;

    open spec fn deep_view(&self) -> SpecClass
        decreases self,
    {
        SpecClass { ident: self.ident.deep_view(), body: tree_view(self.body) }
    }
}

impl DeepView for Node {
    type V = SpecNode;

    open spec fn deep_view(&self) -> SpecNode
        decreases self,
    {
        match self {
            Node::Loop(repeat) => SpecNode::Loop(repeat.deep_view()),
            Node::Break(_) => SpecNode::Break,
            Node::Function(function) => SpecNode::Function(function.deep_view()),
            Node::Call(call) => SpecNode::Call(call.deep_view()),
            Node::Throw(throw) => SpecNode::Throw(throw.deep_view()),
            Node::Import(import) => SpecNode::Import(import.deep_view()),
            Node::Module(module) => SpecNode::Module(module.deep_view()),
            Node::TryCatch(guarded) => SpecNode::TryCatch(guarded.deep_view()),
            Node::Variable(variable) => SpecNode::Variable(variable.deep_view()),
            Node::Assignment(assignment) => SpecNode::Assignment(assignment.deep_view()),
            Node::If(chain) => SpecNode::If(chain.deep_view()),
            Node::Class(class) => SpecNode::Class(class.deep_view()),
            Node::Return(ret) => SpecNode::Return(ret.deep_view()),
            Node::Expr(expr) => SpecNode::Expr(expr.deep_view()),
        }
    }
}

/// The model of a vector of statements is the sequence of their models.
pub proof fn lemma_tree_view(tree: Tree)
    ensures
        tree_view(tree) == tree.deep_view(),
{
    assert(tree_view(tree) =~= tree.deep_view());
}

/// The statement that a built value stands for.
pub open spec fn as_statement<T>(
    outcome: Result<T, BuildError>,
    wrap: spec_fn(T) -> SpecNode,
) -> Result<
    Option<SpecNode>,
    BuildError,
> {
    match outcome {
        Ok(value) => Ok(Some(wrap(value))),
        Err(error) => Err(error),
    }
}

/// What the node `pair` yields: a statement, nothing for the marker at the
/// end of the input, or the first error met.
///
/// A node is built by its tag. Wherever a value may stand, an expression
/// comes out wrapped as [`SpecNode::Expr`].
pub open spec fn built_node(pair: SpecPair) -> Result<Option<SpecNode>, BuildError>
    decreases pair, 1int, 0int,
{
    match pair.rule {
        Rule::EOI => Ok(None),
        Rule::Loop => as_statement(Loop::built(pair), |body| SpecNode::Loop(body)),
        Rule::Break => Ok(Some(SpecNode::Break)),
        Rule::Function => as_statement(
            Function::built(pair),
            |function| SpecNode::Function(function),
        ),
        Rule::Call => as_statement(Call::built(pair), |call| SpecNode::Call(call)),
        Rule::Throw => as_statement(Throw::built(pair), |value| SpecNode::Throw(value)),
        Rule::Import => as_statement(Import::built(pair), |path| SpecNode::Import(path)),
        Rule::Module => as_statement(Module::built(pair), |ident| SpecNode::Module(ident)),
        Rule::TryCatch => as_statement(
            TryCatch::built(pair),
            |guarded| SpecNode::TryCatch(guarded),
        ),
        Rule::Variable => as_statement(
            Variable::built(pair),
            |variable| SpecNode::Variable(variable),
        ),
        Rule::Assignment => as_statement(
            Assignment::built(pair),
            |assignment| SpecNode::Assignment(assignment),
        ),
        Rule::IfBlock => as_statement(IfBlock::built(pair), |chain| SpecNode::If(chain)),
        Rule::Class => as_statement(Class::built(pair), |class| SpecNode::Class(class)),
        Rule::Return => as_statement(Return::built(pair), |value| SpecNode::Return(value)),
        Rule::Expr => if pair.children.len() < 1 {
            Err(BuildError::Bug { code: BugKind::MissingChild, rule: pair.rule })
        } else {
            as_statement(Expr::built(pair.children[0]), |expr| SpecNode::Expr(expr))
        },
        Rule::BinaryExpr => as_statement(
            BinaryExpr::built(pair),
            |chain| SpecNode::Expr(SpecExpr::BinaryExpr(chain)),
        ),
        Rule::ConditionalExpr => as_statement(
            ConditionalExpr::built(pair),
            |chain| SpecNode::Expr(SpecExpr::ConditionalExpr(chain)),
        ),
        Rule::IndexExpr => as_statement(
            IndexExpr::built(pair),
            |index| SpecNode::Expr(SpecExpr::IndexExpr(index)),
        ),
        Rule::String | Rule::Number | Rule::Ident => as_statement(
            Term::built(pair),
            |term| SpecNode::Expr(SpecExpr::Term(term)),
        ),
        rule => Err(BuildError::Bug { code: BugKind::UnexpectedRule, rule }),
    }
}

/// The statements that the nodes from `from` on yield, in order.
pub open spec fn built_nodes(pairs: Seq<SpecPair>, from: int) -> Result<Seq<SpecNode>, BuildError>
    decreases pairs, 0int, pairs.len() - from,
{
    if from < 0 || from >= pairs.len() {
        Ok(Seq::empty())
    } else {
        match built_node(pairs[from]) {
            Err(error) => Err(error),
            Ok(first) => match built_nodes(pairs, from + 1) {
                Err(error) => Err(error),
                Ok(rest) => Ok(
                    match first {
                        Some(node) => seq![node] + rest,
                        None => rest,
                    },
                ),
            },
        }
    }
}

/// The outcome of building one node with the statement replaced by its
/// model.
pub open spec fn modeled_node(outcome: Result<Option<Node>, BuildError>) -> Result<
    Option<SpecNode>,
    BuildError,
> {
    match outcome {
        Ok(Some(node)) => Ok(Some(node.deep_view())),
        Ok(None) => Ok(None),
        Err(error) => Err(error),
    }
}

/// Builds the statement that a node stands for, if it stands for one.
pub fn parse_one(pair: &SyntaxPair) -> (outcome: Result<Option<Node>, BuildError>)
    ensures
        modeled_node(outcome) == built_node(pair.deep_view()),
    decreases pair, 1int, 0int,
{
    proof {
        lemma_pair_view(*pair);
    }
    match pair.rule {
        Rule::EOI => Ok(None),
        Rule::Loop => match Loop::parse_from(pair) {
            Ok(repeat) => Ok(Some(Node::Loop(repeat))),
            Err(error) => Err(error),
        },
        Rule::Break => Ok(Some(Node::Break(Break))),
        Rule::Function => match Function::parse_from(pair) {
            Ok(function) => Ok(Some(Node::Function(function))),
            Err(error) => Err(error),
        },
        Rule::Call => match Call::parse_from(pair) {
            Ok(call) => Ok(Some(Node::Call(call))),
            Err(error) => Err(error),
        },
        Rule::Throw => match Throw::parse_from(pair) {
            Ok(throw) => Ok(Some(Node::Throw(throw))),
            Err(error) => Err(error),
        },
        Rule::Import => match Import::parse_from(pair) {
            Ok(import) => Ok(Some(Node::Import(import))),
            Err(error) => Err(error),
        },
        Rule::Module => match Module::parse_from(pair) {
            Ok(module) => Ok(Some(Node::Module(module))),
            Err(error) => Err(error),
        },
        Rule::TryCatch => match TryCatch::parse_from(pair) {
            Ok(guarded) => Ok(Some(Node::TryCatch(guarded))),
            Err(error) => Err(error),
        },
        Rule::Variable => match Variable::parse_from(pair) {
            Ok(variable) => Ok(Some(Node::Variable(variable))),
            Err(error) => Err(error),
        },
        Rule::Assignment => match Assignment::parse_from(pair) {
            Ok(assignment) => Ok(Some(Node::Assignment(assignment))),
            Err(error) => Err(error),
        },
        Rule::IfBlock => match IfBlock::parse_from(pair) {
            Ok(chain) => Ok(Some(Node::If(chain))),
            Err(error) => Err(error),
        },
        Rule::Class => match Class::parse_from(pair) {
            Ok(class) => Ok(Some(Node::Class(class))),
            Err(error) => Err(error),
        },
        Rule::Return => match Return::parse_from(pair) {
            Ok(ret) => Ok(Some(Node::Return(ret))),
            Err(error) => Err(error),
        },
        Rule::Expr => {
            if pair.children.len() < 1 {
                return Err(BuildError::Bug { code: BugKind::MissingChild, rule: pair.rule });
            }
            proof {
                lemma_pair_view(pair.children[0]);
            }
            match Expr::parse_from(&pair.children[0]) {
                Ok(expr) => Ok(Some(Node::Expr(expr))),
                Err(error) => Err(error),
            }
        },
        Rule::BinaryExpr => match BinaryExpr::parse_from(pair) {
            Ok(chain) => Ok(Some(Node::Expr(Expr::BinaryExpr(chain)))),
            Err(error) => Err(error),
        },
        Rule::ConditionalExpr => match ConditionalExpr::parse_from(pair) {
            Ok(chain) => Ok(Some(Node::Expr(Expr::ConditionalExpr(chain)))),
            Err(error) => Err(error),
        },
        Rule::IndexExpr => match IndexExpr::parse_from(pair) {
            Ok(index) => Ok(Some(Node::Expr(Expr::IndexExpr(index)))),
            Err(error) => Err(error),
        },
        Rule::String | Rule::Number | Rule::Ident => match Term::parse_from(pair) {
            Ok(term) => Ok(Some(Node::Expr(Expr::Term(term)))),
            Err(error) => Err(error),
        },
        rule => Err(BuildError::Bug { code: BugKind::UnexpectedRule, rule }),
    }
}

/// Builds the statements that a run of nodes stands for, in order. The
/// first error ends the build.
pub fn parse(pairs: &Vec<SyntaxPair>) -> (outcome: Result<Tree, BuildError>)
    ensures
        modeled(outcome) == built_nodes(pairs.deep_view(), 0),
    decreases pairs, 0int, 0int,
{
    let ghost models = pairs.deep_view();
    let mut tree: Tree = Vec::new();
    let mut i: usize = 0;
    proof {
        assert(tree.deep_view() =~= Seq::empty());
        match built_nodes(models, 0) {
            Ok(rest) => assert(tree.deep_view() + rest =~= rest),
            Err(_) => {},
        }
    }
    while i < pairs.len()
        invariant
            models == pairs.deep_view(),
            built_nodes(models, 0) == match built_nodes(models, i as int) {
                Ok(rest) => Ok::<Seq<SpecNode>, BuildError>(tree.deep_view() + rest),
                Err(error) => Err(error),
            },
        decreases pairs.len() - i,
    {
        let ghost before = tree.deep_view();
        match parse_one(&pairs[i]) {
            Err(error) => {
                return Err(error);
            },
            Ok(None) => {
                proof {
                    match built_nodes(models, i + 1) {
                        Ok(rest) => {},
                        Err(_) => {},
                    }
                }
            },
            Ok(Some(node)) => {
                let ghost model = node.deep_view();
                tree.push(node);
                proof {
                    assert(tree.deep_view() =~= before + seq![model]);
                    match built_nodes(models, i + 1) {
                        Ok(rest) => assert(before + (seq![model] + rest) =~= tree.deep_view()
                            + rest),
                        Err(_) => {},
                    }
                }
            },
        }
        i += 1;
    }
    proof {
        assert(tree.deep_view() + Seq::<SpecNode>::empty() =~= tree.deep_view());
    }
    Ok(tree)
}

/// The error for text that the grammar engine could not match.
pub open spec fn unparsable(position: Position) -> BuildError {
    BuildError::Syntax { kind: SyntaxErrorKind::Unparsable, position }
}

/// Builds the tree of a whole file from what the grammar engine made of its
/// text: the top-level nodes, or the place where matching failed.
pub fn parse_file(matched: Result<Vec<SyntaxPair>, Position>) -> (outcome: Result<Tree, BuildError>)
    ensures
        modeled(outcome) == match matched {
            Ok(pairs) => built_nodes(pairs.deep_view(), 0),
            Err(position) => Err(unparsable(position)),
        },
{
    match matched {
        Ok(pairs) => parse(&pairs),
        Err(position) => Err(BuildError::Syntax { kind: SyntaxErrorKind::Unparsable, position }),
    }
}

} // verus!

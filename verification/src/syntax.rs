//! The syntax tree as the grammar engine hands it over: tagged nodes with the
//! text they cover, the place where they start, and their children in source
//! order.
use vstd::prelude::*;

verus! {

/// Where a syntax node starts in the source text.
#[derive(Clone, Copy, Debug, PartialEq, Eq, Hash, Structural)]
pub struct Position {
    /// Byte offset from the start of the input.
    pub offset: usize,
    /// Line number, counted from one.
    pub line: usize,
    /// Column number, counted from one.
    pub column: usize,
}

impl Position {
    pub fn new(offset: usize, line: usize, column: usize) -> (position: Position)
        ensures
            position == (Position { offset, line, column }),
    {
        Position { offset, line, column }
    }
}

/// The tag of a syntax node: which production of the grammar matched.
#[derive(Clone, Copy, Debug, PartialEq, Eq, Hash, Structural)]
pub enum Rule {
    EOI,
    Program,
    Block,
    Loop,
    Break,
    Function,
    Call,
    Throw,
    Import,
    Module,
    TryCatch,
    Catch,
    Variable,
    Assignment,
    IfBlock,
    If,
    ElseIf,
    Else,
    Class,
    Return,
    Modifiers,
    Modifier,
    Declaration,
    Type,
    Array,
    Parameters,
    Arguments,
    Argument,
    Expr,
    BinaryExpr,
    ConditionalExpr,
    IndexExpr,
    MathOperator,
    ConditionalOperator,
    Add,
    Subtract,
    Multiply,
    Divide,
    XOR,
    Equality,
    Inequality,
    String,
    Number,
    UNumber,
    Ident,
}

/// One node of the syntax tree.
#[derive(Debug, PartialEq, Eq)]
pub struct SyntaxPair {
    /// The production that matched.
    pub rule: Rule,
    /// The source text the node covers.
    pub text: String,
    /// Where that text starts.
    pub position: Position,
    /// The nodes matched inside this one, in source order.
    pub children: Vec<SyntaxPair>,
}

/// The mathematical model of a [`SyntaxPair`].
pub ghost struct SpecPair {
    pub rule: Rule,
    pub text: Seq<char>,
    pub position: Position,
    pub children: Seq<SpecPair>,
}

impl DeepView for SyntaxPair {
    type V = SpecPair;

    open spec fn deep_view(&self) -> SpecPair
        decreases self,
    {
        SpecPair {
            rule: self.rule,
            text: self.text@,
            position: self.position,
            children: Seq::new(
                self.children.len() as nat,
                |i: int|
                    if 0 <= i < self.children.len() {
                        self.children[i].deep_view()
                    } else {
                        arbitrary()
                    },
            ),
        }
    }
}

impl SyntaxPair {
    /// A node without children.
    pub fn leaf(rule: Rule, text: &str, position: Position) -> (pair: SyntaxPair)
        ensures
            pair.deep_view() == (SpecPair { rule, text: text@, position, children: Seq::empty() }),
    {
        let pair = SyntaxPair { rule, text: text.to_owned(), position, children: Vec::new() };
        proof {
            lemma_pair_view(pair);
            assert(pair.children.deep_view() =~= Seq::<SpecPair>::empty());
        }
        pair
    }

    /// A node with the given children.
    pub fn node(rule: Rule, text: &str, position: Position, children: Vec<SyntaxPair>) -> (pair:
        SyntaxPair)
        ensures
            pair.deep_view() == (SpecPair {
                rule,
                text: text@,
                position,
                children: children.deep_view(),
            }),
    {
        let pair = SyntaxPair { rule, text: text.to_owned(), position, children };
        proof {
            lemma_pair_view(pair);
        }
        pair
    }
}

/// The model of a node holds the models of its children, in the same order.
pub proof fn lemma_pair_view(pair: SyntaxPair)
    ensures
        pair.deep_view().rule == pair.rule,
        pair.deep_view().text == pair.text@,
        pair.deep_view().position == pair.position,
        pair.deep_view().children == pair.children.deep_view(),
{
    reveal_with_fuel(<SyntaxPair as DeepView>::deep_view, 2);
    assert(pair.deep_view().children =~= pair.children.deep_view());
}

} // verus!

//! The abstract syntax tree: pure data, each node the sole owner of its
//! children, together with the mathematical view of every node.

use vstd::prelude::*;

verus! {

/// Binding strength of operators, from loosest to tightest.
#[derive(Debug, PartialEq, Eq, Clone, Copy, Structural)]
pub enum Precedence {
    Lowest,
    Equals,
    LessGreater,
    Sum,
    Product,
    Prefix,
    Call,
}

impl Precedence {
    /// The place of the level in the total order, `Lowest` being 1.
    pub open spec fn spec_rank(self) -> u8 {
        match self {
            Precedence::Lowest => 1,
            Precedence::Equals => 2,
            Precedence::LessGreater => 3,
            Precedence::Sum => 4,
            Precedence::Product => 5,
            Precedence::Prefix => 6,
            Precedence::Call => 7,
        }
    }

    /// The place of the level in the total order, `Lowest` being 1.
    #[verifier::when_used_as_spec(spec_rank)]
    pub fn rank(self) -> (r: u8)
        ensures
            r == self.spec_rank(),
            1 <= r <= 7,
    {
        match self {
            Precedence::Lowest => 1,
            Precedence::Equals => 2,
            Precedence::LessGreater => 3,
            Precedence::Sum => 4,
            Precedence::Product => 5,
            Precedence::Prefix => 6,
            Precedence::Call => 7,
        }
    }

    /// True when `self` binds strictly looser than `other`.
    pub open spec fn spec_below(self, other: Precedence) -> bool {
        self.spec_rank() < other.spec_rank()
    }

    /// True when `self` binds strictly looser than `other`.
    #[verifier::when_used_as_spec(spec_below)]
    pub fn below(self, other: Precedence) -> (lower: bool)
        ensures
            lower == self.spec_below(other),
    {
        self.rank() < other.rank()
    }
}

/// The prefix operators.
#[derive(Debug, PartialEq, Eq, Clone, Copy, Structural)]
pub enum Operator {
    Bang,
    Minus,
}

/// The binary operators.
#[derive(Debug, PartialEq, Eq, Clone, Copy, Structural)]
pub enum InfixOperator {
    Plus,
    Minus,
    Asterisk,
    Slash,
    Lt,
    Gt,
    Eq,
    NotEq,
}

/// The root of a parse: the statements of the source in source order.
#[derive(Debug, PartialEq, Eq)]
pub struct Program {
    pub statements: Vec<Statement>,
}

#[derive(Debug, PartialEq, Eq)]
pub enum Statement {
    Let(Let),
    Return(Return),
    ExpressionStatement(ExpressionStatement),
}

#[derive(Debug, PartialEq, Eq)]
pub enum Expression {
    Ident(Ident),
    IntegerLiteral(IntegerLiteral),
    Prefix(Prefix),
    Infix(Infix),
}

/// `let name = value`.
#[derive(Debug, PartialEq, Eq)]
pub struct Let {
    pub name: Ident,
    pub value: Expression,
}

/// `return value`.
#[derive(Debug, PartialEq, Eq)]
pub struct Return {
    pub value: Expression,
}

/// An expression standing as a statement of its own.
#[derive(Debug, PartialEq, Eq)]
pub struct ExpressionStatement {
    pub value: Expression,
}

#[derive(Debug, PartialEq, Eq, Clone)]
pub struct Ident {
    pub value: String,
}

#[derive(Debug, PartialEq, Eq, Clone)]
pub struct IntegerLiteral {
    pub value: u64,
}

/// A prefix operator applied to the expression on its right.
#[derive(Debug, PartialEq, Eq)]
pub struct Prefix {
    pub operator: Operator,
    pub right: Box<Expression>,
}

/// A binary operator between two expressions.
#[derive(Debug, PartialEq, Eq)]
pub struct Infix {
    pub operator: InfixOperator,
    pub left: Box<Expression>,
    pub right: Box<Expression>,
}

/// The mathematical value of an expression tree.
#[allow(inconsistent_fields)]
pub enum ExpressionView {
    Ident { name: Seq<char> },
    IntegerLiteral { value: u64 },
    Prefix { operator: Operator, right: Box<ExpressionView> },
    Infix { operator: InfixOperator, left: Box<ExpressionView>, right: Box<ExpressionView> },
}

/// The mathematical value of a statement.
pub enum StatementView {
    Let { name: Seq<char>, value: ExpressionView },
    Return { value: ExpressionView },
    ExpressionStatement { value: ExpressionView },
}

impl Expression {
    /// The mathematical value of the tree rooted at this expression.
    pub open spec fn tree(&self) -> ExpressionView
        decreases self,
    {
        match self {
            Expression::Ident(ident) => ExpressionView::Ident { name: ident.value@ },
            Expression::IntegerLiteral(literal) => ExpressionView::IntegerLiteral {
                value: literal.value,
            },
            Expression::Prefix(prefix) => ExpressionView::Prefix {
                operator: prefix.operator,
                right: Box::new(prefix.right.tree()),
            },
            Expression::Infix(infix) => ExpressionView::Infix {
                operator: infix.operator,
                left: Box::new(infix.left.tree()),
                right: Box::new(infix.right.tree()),
            },
        }
    }
}

impl View for Expression {
    type V = ExpressionView;

    open spec fn view(&self) -> ExpressionView {
        self.tree()
    }
}

impl View for Statement {
    type V = StatementView;

    open spec fn view(&self) -> StatementView {
        match self {
            Statement::Let(s) => StatementView::Let { name: s.name.value@, value: s.value@ },
            Statement::Return(s) => StatementView::Return { value: s.value@ },
            Statement::ExpressionStatement(s) => StatementView::ExpressionStatement {
                value: s.value@,
            },
        }
    }
}

impl View for Program {
    type V = Seq<StatementView>;

    open spec fn view(&self) -> Seq<StatementView> {
        self.statements@.map_values(|s: Statement| s@)
    }
}

} // verus!

//! The syntax tree: expression nodes, each carrying its source span.

use crate::span::Span;
use vstd::prelude::*;

verus! {

/// The binary infix operators of the language.
#[derive(Debug, Clone, Copy, Eq, PartialEq, Structural)]
pub enum OpInfix {
    Add,
    Subtract,
    Multiply,
    Divide,
    Modulus,
    Less,
    LessEqual,
    Greater,
    GreaterEqual,
    Equal,
    NotEqual,
    LogicAnd,
    LogicOr,
}

/// A literal value. A number carries its matched source text: ASCII digits
/// with an optional `.`-separated fractional part.
#[derive(Debug, PartialEq)]
pub enum ExprLiteral {
    Number(Vec<u8>),
}

/// A binary operation with exclusive ownership of both operand subtrees.
#[derive(Debug, PartialEq)]
pub struct ExprInfixOp {
    pub lt: Box<Expr>,
    pub op: OpInfix,
    pub rt: Box<Expr>,
}

#[derive(Debug, PartialEq)]
pub enum ExprKind {
    Literal(Box<ExprLiteral>),
    InfixOp(Box<ExprInfixOp>),
    Error,
}

/// An expression node: a kind plus the span of the source text it covers.
#[derive(Debug, PartialEq)]
pub struct Expr {
    pub kind: Box<ExprKind>,
    pub span: Span,
}

/// Mathematical image of an expression tree: the same shape, with literal
/// text as a byte sequence and spans as unbounded integers. Contracts and
/// laws are stated over this form.
pub enum ExprModel {
    Num { text: Seq<u8>, start: int, end: int },
    Infix { lt: Box<ExprModel>, op: OpInfix, rt: Box<ExprModel>, start: int, end: int },
    Error { start: int, end: int },
}

impl ExprModel {
    pub open spec fn start(self) -> int {
        match self {
            ExprModel::Num { start, .. } => start,
            ExprModel::Infix { start, .. } => start,
            ExprModel::Error { start, .. } => start,
        }
    }

    pub open spec fn end(self) -> int {
        match self {
            ExprModel::Num { end, .. } => end,
            ExprModel::Infix { end, .. } => end,
            ExprModel::Error { end, .. } => end,
        }
    }

    /// The error sentinel stands nowhere in the tree.
    pub open spec fn has_no_error_node(self) -> bool
        decreases self,
    {
        match self {
            ExprModel::Num { .. } => true,
            ExprModel::Error { .. } => false,
            ExprModel::Infix { lt, rt, .. } => (*lt).has_no_error_node() && (
            *rt).has_no_error_node(),
        }
    }

    /// A composite node's span encloses the spans of both its children, all
    /// the way down.
    pub open spec fn span_well_formed(self) -> bool
        decreases self,
    {
        match self {
            ExprModel::Num { .. } => true,
            ExprModel::Error { .. } => true,
            ExprModel::Infix { lt, rt, start, end, .. } => {
                &&& start <= (*lt).start()
                &&& (*lt).end() <= end
                &&& start <= (*rt).start()
                &&& (*rt).end() <= end
                &&& (*lt).span_well_formed()
                &&& (*rt).span_well_formed()
            },
        }
    }
}

impl From<Vec<u8>> for ExprKind {
    /// A bare number literal's text becomes the corresponding literal kind.
    fn from(value: Vec<u8>) -> (k: ExprKind) {
        ExprKind::Literal(Box::new(ExprLiteral::Number(value)))
    }
}

impl vstd::std_specs::convert::FromSpecImpl<Vec<u8>> for ExprKind {
    open spec fn obeys_from_spec() -> bool {
        true
    }

    open spec fn from_spec(value: Vec<u8>) -> ExprKind {
        ExprKind::Literal(Box::new(ExprLiteral::Number(value)))
    }
}

impl From<(Expr, OpInfix, Expr)> for ExprKind {
    /// A `(left, operator, right)` triple becomes the corresponding infix
    /// node kind.
    fn from(value: (Expr, OpInfix, Expr)) -> (k: ExprKind) {
        ExprKind::InfixOp(
            Box::new(ExprInfixOp { lt: Box::new(value.0), op: value.1, rt: Box::new(value.2) }),
        )
    }
}

impl vstd::std_specs::convert::FromSpecImpl<(Expr, OpInfix, Expr)> for ExprKind {
    open spec fn obeys_from_spec() -> bool {
        true
    }

    open spec fn from_spec(value: (Expr, OpInfix, Expr)) -> ExprKind {
        ExprKind::InfixOp(
            Box::new(ExprInfixOp { lt: Box::new(value.0), op: value.1, rt: Box::new(value.2) }),
        )
    }
}

impl ExprLiteral {
    /// The literal's source text.
    pub open spec fn text(self) -> Seq<u8> {
        match self {
            ExprLiteral::Number(text) => text@,
        }
    }
}

impl ExprKind {
    /// The mathematical image of a node of this kind whose span is
    /// `[start, end)`.
    pub open spec fn model_at(self, start: int, end: int) -> ExprModel
        decreases self,
    {
        match self {
            ExprKind::Literal(lit) => ExprModel::Num { text: (*lit).text(), start, end },
            ExprKind::InfixOp(node) => ExprModel::Infix {
                lt: Box::new((*(*node).lt).model()),
                op: (*node).op,
                rt: Box::new((*(*node).rt).model()),
                start,
                end,
            },
            ExprKind::Error => ExprModel::Error { start, end },
        }
    }
}

impl Expr {
    /// The mathematical image of this node.
    pub open spec fn model(self) -> ExprModel
        decreases self,
    {
        (*self.kind).model_at(self.span.start as int, self.span.end as int)
    }

    pub fn new(kind: ExprKind, span: Span) -> (e: Expr)
        ensures
            e == (Expr { kind: Box::new(kind), span }),
    {
        Expr { kind: Box::new(kind), span }
    }

    /// The sentinel node produced when no real parse tree exists; its span is
    /// empty.
    pub fn error() -> (e: Expr)
        ensures
            e == (Expr { kind: Box::new(ExprKind::Error), span: Span { start: 0, end: 0 } }),
            e.model() == (ExprModel::Error { start: 0, end: 0 }),
    {
        Expr { kind: Box::new(ExprKind::Error), span: Span { start: 0, end: 0 } }
    }

    /// Get the expression's span
    pub fn span(&self) -> (s: Span)
        ensures
            s == self.span,
    {
        self.span
    }

    /// Get the expression's span start
    pub fn start(&self) -> (r: usize)
        ensures
            r == self.span.start,
    {
        self.span.start
    }

    /// Get the expression's span end
    pub fn end(&self) -> (r: usize)
        ensures
            r == self.span.end,
    {
        self.span.end
    }

    pub fn kind(&self) -> (k: &ExprKind)
        ensures
            *k == *self.kind,
    {
        &*self.kind
    }
}

impl Clone for ExprLiteral {
    fn clone(&self) -> (res: Self)
        ensures
            res.text() == self.text(),
    {
        match self {
            ExprLiteral::Number(text) => {
                let copied = text.clone();
                proof {
                    assert(copied@ =~= text@);
                }
                ExprLiteral::Number(copied)
            },
        }
    }
}

impl Clone for ExprInfixOp {
    fn clone(&self) -> (res: Self)
        ensures
            res.op == self.op,
            (*res.lt).model() == (*self.lt).model(),
            (*res.rt).model() == (*self.rt).model(),
        decreases *self,
    {
        ExprInfixOp {
            lt: Box::new((&*self.lt).clone()),
            op: self.op,
            rt: Box::new((&*self.rt).clone()),
        }
    }
}

impl Clone for ExprKind {
    fn clone(&self) -> (res: Self)
        ensures
            forall|start: int, end: int|
                res.model_at(start, end) == #[trigger] self.model_at(start, end),
        decreases *self,
    {
        match self {
            ExprKind::Literal(lit) => ExprKind::Literal(Box::new((&**lit).clone())),
            ExprKind::InfixOp(node) => ExprKind::InfixOp(Box::new((&**node).clone())),
            ExprKind::Error => ExprKind::Error,
        }
    }
}

impl Clone for Expr {
    fn clone(&self) -> (res: Self)
        ensures
            res.span == self.span,
            res.model() == self.model(),
        decreases *self,
    {
        let kind = (&*self.kind).clone();
        proof {
            assert(kind.model_at(self.span.start as int, self.span.end as int) == (
            *self.kind).model_at(self.span.start as int, self.span.end as int));
        }
        Expr { kind: Box::new(kind), span: self.span }
    }
}

} // verus!

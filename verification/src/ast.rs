use vstd::prelude::*;
use vstd::string::StringExecFns;

use crate::span::{Span, SpanView};
use crate::token::{BinOpView, BinaryOperator, UnOpView, UnaryOperator};

verus! {

/// Mathematical picture of an [`Expression`]: the abstract syntax tree with
/// identifiers and operator spellings as character sequences.
pub enum ExprView {
    TruthValue { value: bool, span: SpanView },
    Atomic { name: Seq<char>, span: SpanView },
    Paren { inner: Box<ExprView>, span: SpanView },
    Unary { op: UnOpView, op_span: SpanView, operand: Box<ExprView>, span: SpanView },
    Binary {
        lhs: Box<ExprView>,
        op: BinOpView,
        op_span: SpanView,
        rhs: Box<ExprView>,
        span: SpanView,
    },
}

impl ExprView {
    /// The part of the source text the expression covers.
    pub open spec fn span(self) -> SpanView {
        match self {
            ExprView::TruthValue { span, .. } => span,
            ExprView::Atomic { span, .. } => span,
            ExprView::Paren { span, .. } => span,
            ExprView::Unary { span, .. } => span,
            ExprView::Binary { span, .. } => span,
        }
    }

    /// Truth value of the expression under the assignment `env`.
    pub open spec fn eval(self, env: Map<Seq<char>, bool>) -> bool
        decreases self,
    {
        match self {
            ExprView::TruthValue { value, .. } => value,
            ExprView::Atomic { name, .. } => env[name],
            ExprView::Paren { inner, .. } => inner.eval(env),
            ExprView::Unary { operand, .. } => !operand.eval(env),
            ExprView::Binary { lhs, op, rhs, .. } => match op {
                BinOpView::Conjunction(_) => lhs.eval(env) && rhs.eval(env),
                BinOpView::Disjunction(_) => lhs.eval(env) || rhs.eval(env),
                BinOpView::ExclusiveDisjunction(_) => lhs.eval(env) != rhs.eval(env),
                BinOpView::Implication(_) => !lhs.eval(env) || rhs.eval(env),
                BinOpView::Equivalence(_) => lhs.eval(env) == rhs.eval(env),
            },
        }
    }

    /// The names of the atomic sub-expressions, left to right.
    pub open spec fn atoms(self) -> Seq<Seq<char>>
        decreases self,
    {
        match self {
            ExprView::TruthValue { .. } => Seq::empty(),
            ExprView::Atomic { name, .. } => seq![name],
            ExprView::Paren { inner, .. } => inner.atoms(),
            ExprView::Unary { operand, .. } => operand.atoms(),
            ExprView::Binary { lhs, rhs, .. } => lhs.atoms() + rhs.atoms(),
        }
    }

    /// The textual rendering: every operator keeps the spelling it was
    /// written with in the source.
    pub open spec fn render(self) -> Seq<char>
        decreases self,
    {
        match self {
            ExprView::TruthValue { value, .. } => if value {
                "1"@
            } else {
                "0"@
            },
            ExprView::Atomic { name, .. } => name,
            ExprView::Paren { inner, .. } => "("@ + inner.render() + ")"@,
            ExprView::Unary { op, operand, .. } => op.spelling() + operand.render(),
            ExprView::Binary { lhs, op, rhs, .. } => lhs.render() + " "@ + op.spelling() + " "@
                + rhs.render(),
        }
    }

    /// The number of nodes in the tree; at least one.
    pub open spec fn size(self) -> nat
        decreases self,
    {
        match self {
            ExprView::TruthValue { .. } => 1,
            ExprView::Atomic { .. } => 1,
            ExprView::Paren { inner, .. } => 1 + inner.size(),
            ExprView::Unary { operand, .. } => 1 + operand.size(),
            ExprView::Binary { lhs, rhs, .. } => 1 + lhs.size() + rhs.size(),
        }
    }

    /// Every expression tree has at least one node.
    pub proof fn lemma_size_pos(self)
        ensures
            self.size() >= 1,
    {
        match self {
            ExprView::TruthValue { .. } => {},
            ExprView::Atomic { .. } => {},
            ExprView::Paren { .. } => {},
            ExprView::Unary { .. } => {},
            ExprView::Binary { .. } => {},
        }
    }

    /// A literal (an atomic expression or a truth value): no decomposition
    /// step applies to it.
    pub open spec fn is_literal(self) -> bool {
        match self {
            ExprView::TruthValue { .. } => true,
            ExprView::Atomic { .. } => true,
            _ => false,
        }
    }
}

#[derive(Debug)]
pub struct TruthValueExpression {
    pub value: bool,
}

#[derive(Debug)]
pub struct AtomicExpression {
    pub ident: String,
}

#[derive(Debug)]
pub struct UnaryExpression {
    pub operator: UnaryOperator,
    pub operand: Expression,
    pub operator_span: Span,
}

#[derive(Debug)]
pub struct BinaryExpression {
    pub lhs: Expression,
    pub operator: BinaryOperator,
    pub rhs: Expression,
    pub operator_span: Span,
}

#[derive(Debug)]
pub struct ParenExpression {
    pub expression: Expression,
}

#[derive(Debug)]
pub enum ExpressionKind {
    TruthValue(TruthValueExpression),
    Atomic(AtomicExpression),
    Paren(ParenExpression),
    Unary(UnaryExpression),
    Binary(BinaryExpression),
}

#[derive(Debug)]
pub struct Expression {
    pub kind: Box<ExpressionKind>,
    pub span: Span,
}

impl View for Expression {
    type V = ExprView;

    open spec fn view(&self) -> ExprView
        decreases self,
    {
        match *self.kind {
            ExpressionKind::TruthValue(TruthValueExpression { value }) => ExprView::TruthValue {
                value,
                span: self.span@,
            },
            ExpressionKind::Atomic(AtomicExpression { ref ident }) => ExprView::Atomic {
                name: ident@,
                span: self.span@,
            },
            ExpressionKind::Paren(ParenExpression { ref expression }) => ExprView::Paren {
                inner: Box::new(expression@),
                span: self.span@,
            },
            ExpressionKind::Unary(ref u) => ExprView::Unary {
                op: u.operator@,
                op_span: u.operator_span@,
                operand: Box::new(u.operand@),
                span: self.span@,
            },
            ExpressionKind::Binary(ref b) => ExprView::Binary {
                lhs: Box::new(b.lhs@),
                op: b.operator@,
                op_span: b.operator_span@,
                rhs: Box::new(b.rhs@),
                span: self.span@,
            },
        }
    }
}

impl TruthValueExpression {
    /// The textual rendering: `1` for true, `0` for false.
    pub fn render(&self) -> (r: String)
        ensures
            r@ == (if self.value {
                "1"@
            } else {
                "0"@
            }),
    {
        if self.value {
            "1".to_owned()
        } else {
            "0".to_owned()
        }
    }
}

impl AtomicExpression {
    /// The textual rendering: the identifier itself.
    pub fn render(&self) -> (r: String)
        ensures
            r@ == self.ident@,
    {
        self.ident.clone()
    }
}

impl UnaryExpression {
    /// The textual rendering: the operator spelling directly prefixed to the
    /// operand's rendering.
    pub fn render(&self) -> (r: String)
        ensures
            r@ == self.operator@.spelling() + self.operand@.render(),
        decreases self,
    {
        let mut out = self.operator.spelling().to_owned();
        let operand = self.operand.render();
        out.append(operand.as_str());
        out
    }
}

impl BinaryExpression {
    /// The textual rendering: left operand, operator spelling and right
    /// operand, separated by single spaces.
    pub fn render(&self) -> (r: String)
        ensures
            r@ == self.lhs@.render() + " "@ + self.operator@.spelling() + " "@ + self.rhs@.render(),
        decreases self,
    {
        let mut out = self.lhs.render();
        out.append(" ");
        out.append(self.operator.spelling());
        out.append(" ");
        let rhs = self.rhs.render();
        out.append(rhs.as_str());
        out
    }
}

impl ParenExpression {
    /// The textual rendering: the operand's rendering wrapped in parentheses.
    pub fn render(&self) -> (r: String)
        ensures
            r@ == "("@ + self.expression@.render() + ")"@,
        decreases self,
    {
        let mut out = "(".to_owned();
        let inner = self.expression.render();
        out.append(inner.as_str());
        out.append(")");
        out
    }
}

impl Expression {
    /// The textual rendering of the expression; parsing it again yields the
    /// same tree.
    pub fn render(&self) -> (r: String)
        ensures
            r@ == self@.render(),
        decreases self,
    {
        match &*self.kind {
            ExpressionKind::TruthValue(expr) => expr.render(),
            ExpressionKind::Atomic(expr) => expr.render(),
            ExpressionKind::Paren(expr) => expr.render(),
            ExpressionKind::Unary(expr) => expr.render(),
            ExpressionKind::Binary(expr) => expr.render(),
        }
    }

    /// Whether the expression is a literal (an atomic expression or a truth
    /// value), which no decomposition step applies to.
    pub fn terminates(&self) -> (r: bool)
        ensures
            r == self@.is_literal(),
    {
        match &*self.kind {
            ExpressionKind::TruthValue(_) => true,
            ExpressionKind::Atomic(_) => true,
            _ => false,
        }
    }
}

impl Clone for TruthValueExpression {
    fn clone(&self) -> (r: Self)
        ensures
            r == *self,
    {
        TruthValueExpression { value: self.value }
    }
}

impl Clone for AtomicExpression {
    fn clone(&self) -> (r: Self)
        ensures
            r == *self,
    {
        AtomicExpression { ident: self.ident.clone() }
    }
}

impl Clone for UnaryExpression {
    fn clone(&self) -> (r: Self)
        ensures
            r == *self,
        decreases self,
    {
        UnaryExpression {
            operator: self.operator,
            operand: self.operand.clone(),
            operator_span: self.operator_span,
        }
    }
}

impl Clone for BinaryExpression {
    fn clone(&self) -> (r: Self)
        ensures
            r == *self,
        decreases self,
    {
        BinaryExpression {
            lhs: self.lhs.clone(),
            operator: self.operator,
            rhs: self.rhs.clone(),
            operator_span: self.operator_span,
        }
    }
}

impl Clone for ParenExpression {
    fn clone(&self) -> (r: Self)
        ensures
            r == *self,
        decreases self,
    {
        ParenExpression { expression: self.expression.clone() }
    }
}

impl Clone for ExpressionKind {
    fn clone(&self) -> (r: Self)
        ensures
            r == *self,
        decreases self,
    {
        match self {
            ExpressionKind::TruthValue(e) => ExpressionKind::TruthValue(e.clone()),
            ExpressionKind::Atomic(e) => ExpressionKind::Atomic(e.clone()),
            ExpressionKind::Paren(e) => ExpressionKind::Paren(e.clone()),
            ExpressionKind::Unary(e) => ExpressionKind::Unary(e.clone()),
            ExpressionKind::Binary(e) => ExpressionKind::Binary(e.clone()),
        }
    }
}

impl Clone for Expression {
    fn clone(&self) -> (r: Self)
        ensures
            r == *self,
        decreases self,
    {
        Expression { kind: Box::new((&*self.kind).clone()), span: self.span }
    }
}

} // verus!

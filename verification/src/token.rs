use vstd::prelude::*;

use crate::span::{Span, SpanView};
use crate::text::str_eq;

verus! {

/// A token in a logical expression.
///
/// Contains a [`TokenKind`] and a [`Span`].
#[derive(Clone, Debug)]
pub struct Token {
    pub kind: TokenKind,
    pub span: Span,
}

/// Mathematical picture of a [`Token`].
pub struct TokenView {
    pub kind: TokenKindView,
    pub span: SpanView,
}

impl View for Token {
    type V = TokenView;

    open spec fn view(&self) -> TokenView {
        TokenView { kind: self.kind@, span: self.span@ }
    }
}

impl DeepView for Token {
    type V = TokenView;

    open spec fn deep_view(&self) -> TokenView {
        self.view()
    }
}

impl Token {
    /// Creates a new [`Token`].
    pub fn new(kind: TokenKind, span: Span) -> (r: Self)
        ensures
            r.kind == kind,
            r.span == span,
    {
        Self { kind, span }
    }

    /// Returns the [`TokenKind`].
    pub fn kind(&self) -> (r: &TokenKind)
        ensures
            r == &self.kind,
    {
        &self.kind
    }

    /// Returns the [`Span`].
    pub fn span(&self) -> (r: Span)
        ensures
            r == self.span,
    {
        self.span
    }
}

#[derive(Clone, Debug)]
pub enum TokenKind {
    TruthValue(bool),
    Identifier(String),
    Delimiter(Delimiter),
    UnaryOperator(UnaryOperator),
    BinaryOperator(BinaryOperator),
}

/// Mathematical picture of a [`TokenKind`]: spellings become character
/// sequences.
pub enum TokenKindView {
    TruthValue(bool),
    Identifier(Seq<char>),
    Delimiter(Delimiter),
    UnaryOperator(UnOpView),
    BinaryOperator(BinOpView),
}

impl View for TokenKind {
    type V = TokenKindView;

    open spec fn view(&self) -> TokenKindView {
        match self {
            TokenKind::TruthValue(v) => TokenKindView::TruthValue(*v),
            TokenKind::Identifier(name) => TokenKindView::Identifier(name@),
            TokenKind::Delimiter(d) => TokenKindView::Delimiter(*d),
            TokenKind::UnaryOperator(op) => TokenKindView::UnaryOperator(op@),
            TokenKind::BinaryOperator(op) => TokenKindView::BinaryOperator(op@),
        }
    }
}

impl PartialEq for TokenKind {
    fn eq(&self, other: &Self) -> (r: bool) {
        match (self, other) {
            (TokenKind::TruthValue(a), TokenKind::TruthValue(b)) => *a == *b,
            (TokenKind::Identifier(a), TokenKind::Identifier(b)) => str_eq(
                a.as_str(),
                b.as_str(),
            ),
            (TokenKind::Delimiter(a), TokenKind::Delimiter(b)) => *a == *b,
            (TokenKind::UnaryOperator(a), TokenKind::UnaryOperator(b)) => match (a, b) {
                (UnaryOperator::Negation(x), UnaryOperator::Negation(y)) => str_eq(x, y),
            },
            (TokenKind::BinaryOperator(a), TokenKind::BinaryOperator(b)) => bin_op_eq(a, b),
            _ => false,
        }
    }
}

impl vstd::std_specs::cmp::PartialEqSpecImpl for TokenKind {
    open spec fn obeys_eq_spec() -> bool {
        true
    }

    open spec fn eq_spec(&self, other: &Self) -> bool {
        self@ == other@
    }
}

#[derive(Clone, Copy, Debug, PartialEq, Eq, Structural)]
pub enum Delimiter {
    Open,
    Close,
}

#[derive(Clone, Copy, Debug)]
pub enum UnaryOperator {
    Negation(&'static str),
}

/// Mathematical picture of a [`UnaryOperator`]: the operator together with the
/// spelling it was written with.
pub enum UnOpView {
    Negation(Seq<char>),
}

impl UnOpView {
    /// The spelling the operator was written with.
    pub open spec fn spelling(self) -> Seq<char> {
        match self {
            UnOpView::Negation(s) => s,
        }
    }
}

impl View for UnaryOperator {
    type V = UnOpView;

    open spec fn view(&self) -> UnOpView {
        match self {
            UnaryOperator::Negation(s) => UnOpView::Negation(s@),
        }
    }
}

impl UnaryOperator {
    /// The spelling the operator was written with in the source text.
    pub fn spelling(&self) -> (r: &'static str)
        ensures
            r@ == self@.spelling(),
    {
        match self {
            UnaryOperator::Negation(s) => s,
        }
    }
}

impl PartialEq for UnaryOperator {
    fn eq(&self, other: &Self) -> (r: bool) {
        match (self, other) {
            (UnaryOperator::Negation(a), UnaryOperator::Negation(b)) => str_eq(a, b),
        }
    }
}

impl vstd::std_specs::cmp::PartialEqSpecImpl for UnaryOperator {
    open spec fn obeys_eq_spec() -> bool {
        true
    }

    open spec fn eq_spec(&self, other: &Self) -> bool {
        self@ == other@
    }
}

#[derive(Clone, Copy, Debug)]
pub enum BinaryOperator {
    Conjunction(&'static str),
    Disjunction(&'static str),
    ExclusiveDisjunction(&'static str),
    Implication(&'static str),
    Equivalence(&'static str),
}

/// Mathematical picture of a [`BinaryOperator`]: the operator together with
/// the spelling it was written with.
pub enum BinOpView {
    Conjunction(Seq<char>),
    Disjunction(Seq<char>),
    ExclusiveDisjunction(Seq<char>),
    Implication(Seq<char>),
    Equivalence(Seq<char>),
}

impl BinOpView {
    /// The spelling the operator was written with.
    pub open spec fn spelling(self) -> Seq<char> {
        match self {
            BinOpView::Conjunction(s) => s,
            BinOpView::Disjunction(s) => s,
            BinOpView::ExclusiveDisjunction(s) => s,
            BinOpView::Implication(s) => s,
            BinOpView::Equivalence(s) => s,
        }
    }

    /// Binding strength; a lower number binds tighter.
    pub open spec fn precedence(self) -> int {
        match self {
            BinOpView::Conjunction(_) => 1,
            BinOpView::Disjunction(_) => 2,
            BinOpView::ExclusiveDisjunction(_) => 3,
            BinOpView::Implication(_) => 4,
            BinOpView::Equivalence(_) => 5,
        }
    }

    /// Whether chains of the operator may stand without parentheses.
    pub open spec fn is_associative(self) -> bool {
        match self {
            BinOpView::Conjunction(_) => true,
            BinOpView::Disjunction(_) => true,
            BinOpView::ExclusiveDisjunction(_) => true,
            BinOpView::Implication(_) => false,
            BinOpView::Equivalence(_) => false,
        }
    }
}

impl View for BinaryOperator {
    type V = BinOpView;

    open spec fn view(&self) -> BinOpView {
        match self {
            BinaryOperator::Conjunction(s) => BinOpView::Conjunction(s@),
            BinaryOperator::Disjunction(s) => BinOpView::Disjunction(s@),
            BinaryOperator::ExclusiveDisjunction(s) => BinOpView::ExclusiveDisjunction(s@),
            BinaryOperator::Implication(s) => BinOpView::Implication(s@),
            BinaryOperator::Equivalence(s) => BinOpView::Equivalence(s@),
        }
    }
}

impl BinaryOperator {
    /// The spelling the operator was written with in the source text.
    pub fn spelling(&self) -> (r: &'static str)
        ensures
            r@ == self@.spelling(),
    {
        match self {
            BinaryOperator::Conjunction(s) => s,
            BinaryOperator::Disjunction(s) => s,
            BinaryOperator::ExclusiveDisjunction(s) => s,
            BinaryOperator::Implication(s) => s,
            BinaryOperator::Equivalence(s) => s,
        }
    }

    /// Returns the precedence.
    ///
    /// **Note** that a lower number means a higher precedence.
    pub fn precedence(&self) -> (r: i32)
        ensures
            r == self@.precedence(),
    {
        match self {
            BinaryOperator::Conjunction(_) => 1,
            BinaryOperator::Disjunction(_) => 2,
            BinaryOperator::ExclusiveDisjunction(_) => 3,
            BinaryOperator::Implication(_) => 4,
            BinaryOperator::Equivalence(_) => 5,
        }
    }

    pub fn is_associative(&self) -> (r: bool)
        ensures
            r == self@.is_associative(),
    {
        match self {
            BinaryOperator::Conjunction(_) => true,
            BinaryOperator::Disjunction(_) => true,
            BinaryOperator::ExclusiveDisjunction(_) => true,
            BinaryOperator::Implication(_) => false,
            BinaryOperator::Equivalence(_) => false,
        }
    }
}

fn bin_op_eq(this: &BinaryOperator, other: &BinaryOperator) -> (r: bool)
    ensures
        r == (this@ == other@),
{
    match (this, other) {
        (BinaryOperator::Conjunction(a), BinaryOperator::Conjunction(b)) => str_eq(a, b),
        (BinaryOperator::Disjunction(a), BinaryOperator::Disjunction(b)) => str_eq(a, b),
        (
            BinaryOperator::ExclusiveDisjunction(a),
            BinaryOperator::ExclusiveDisjunction(b),
        ) => str_eq(a, b),
        (BinaryOperator::Implication(a), BinaryOperator::Implication(b)) => str_eq(a, b),
        (BinaryOperator::Equivalence(a), BinaryOperator::Equivalence(b)) => str_eq(a, b),
        _ => false,
    }
}

impl PartialEq for BinaryOperator {
    fn eq(&self, other: &Self) -> (r: bool) {
        bin_op_eq(self, other)
    }
}

impl vstd::std_specs::cmp::PartialEqSpecImpl for BinaryOperator {
    open spec fn obeys_eq_spec() -> bool {
        true
    }

    open spec fn eq_spec(&self, other: &Self) -> bool {
        self@ == other@
    }
}

} // verus!

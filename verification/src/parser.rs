use vstd::prelude::*;

use crate::ast::{
    AtomicExpression, BinaryExpression, ExprView, Expression, ExpressionKind, ParenExpression,
    TruthValueExpression, UnaryExpression,
};
use crate::error::{ErrView, Error};
use crate::span::SpanView;
use crate::token::{Delimiter, TokenKind, TokenKindView, TokenView};
use crate::token_stream::{sp_stream_span, TokenStream};

verus! {

/// What one parsing procedure yields: the expression read and the number of
/// tokens consumed, or the error that ended the parse.
pub type ParseOutcome = Result<(ExprView, nat), ErrView>;

/// A parenthesized sub-expression beginning at token `i`: an opening
/// delimiter, a full expression and a closing delimiter. Yields the inner
/// expression.
pub open spec fn sp_parse_paren(ts: Seq<TokenView>, i: int, eof: SpanView) -> ParseOutcome
    decreases ts.len() - i, 0int,
    when 0 <= i <= ts.len()
{
    if i >= ts.len() {
        Err(ErrView::of("unexpected end of file"@, eof))
    } else if !(ts[i].kind matches TokenKindView::Delimiter(Delimiter::Open)) {
        Err(ErrView::of("expected symbol"@, ts[i].span))
    } else {
        match sp_parse(ts, i + 1, eof) {
            Err(e) => Err(e),
            Ok((inner, n)) => {
                let j = i + 1 + n;
                if j >= ts.len() {
                    Err(ErrView::of("unexpected end of file"@, eof))
                } else if !(ts[j].kind matches TokenKindView::Delimiter(Delimiter::Close)) {
                    Err(ErrView::of("expected symbol"@, ts[j].span))
                } else {
                    Ok((inner, (n + 2) as nat))
                }
            },
        }
    }
}

/// A term beginning at token `i`: a parenthesized sub-expression, an atomic
/// identifier or a truth literal; any other token is a syntax error at its
/// span.
pub open spec fn sp_parse_term(ts: Seq<TokenView>, i: int, eof: SpanView) -> ParseOutcome
    decreases ts.len() - i, 1int,
    when 0 <= i <= ts.len()
{
    if i >= ts.len() {
        Err(ErrView::of("unexpected end of file"@, eof))
    } else {
        let start = sp_stream_span(ts, i, eof);
        match ts[i].kind {
            TokenKindView::Delimiter(Delimiter::Open) => match sp_parse_paren(ts, i, eof) {
                Err(e) => Err(e),
                Ok((inner, n)) => {
                    let end = sp_stream_span(ts, i + n, eof);
                    Ok(
                        (
                            ExprView::Paren { inner: Box::new(inner), span: start.join(end) },
                            n,
                        ),
                    )
                },
            },
            TokenKindView::Identifier(name) => {
                let end = sp_stream_span(ts, i + 1, eof);
                Ok((ExprView::Atomic { name, span: start.join(end) }, 1nat))
            },
            TokenKindView::TruthValue(value) => {
                let end = sp_stream_span(ts, i + 1, eof);
                Ok((ExprView::TruthValue { value, span: start.join(end) }, 1nat))
            },
            _ => Err(ErrView::of("expected expression"@, sp_stream_span(ts, i, eof))),
        }
    }
}

/// A unary expression beginning at token `i`: any number of negation
/// operators followed by a term.
pub open spec fn sp_parse_unary(ts: Seq<TokenView>, i: int, eof: SpanView) -> ParseOutcome
    decreases ts.len() - i, 2int,
    when 0 <= i <= ts.len()
{
    let start = sp_stream_span(ts, i, eof);
    if i < ts.len() {
        match ts[i].kind {
            TokenKindView::UnaryOperator(op) => {
                let op_span = ts[i].span;
                match sp_parse_unary(ts, i + 1, eof) {
                    Err(e) => Err(e),
                    Ok((operand, n)) => {
                        let end = sp_stream_span(ts, i + 1 + n, eof);
                        Ok(
                            (
                                ExprView::Unary {
                                    op,
                                    op_span,
                                    operand: Box::new(operand),
                                    span: start.join(end),
                                },
                                (n + 1) as nat,
                            ),
                        )
                    },
                }
            },
            _ => sp_parse_term(ts, i, eof),
        }
    } else {
        sp_parse_term(ts, i, eof)
    }
}

/// A full expression beginning at token `i`: a unary expression, optionally
/// followed by a binary operator and a full expression. The grammar is
/// right-recursive; a rotation step re-leans the tree to the left wherever
/// the outer operator binds at least as tightly as the top operator of the
/// right-hand side, and a chain of equal precedence in which either operator
/// is non-associative is rejected as ambiguous.
pub open spec fn sp_parse(ts: Seq<TokenView>, i: int, eof: SpanView) -> ParseOutcome
    decreases ts.len() - i, 3int,
    when 0 <= i <= ts.len()
{
    let start = sp_stream_span(ts, i, eof);
    match sp_parse_unary(ts, i, eof) {
        Err(e) => Err(e),
        Ok((lhs_expr, n1)) => {
            let j = i + n1;
            if j < ts.len() {
                match ts[j].kind {
                    TokenKindView::BinaryOperator(op) => {
                        let op_span = ts[j].span;
                        match sp_parse(ts, j + 1, eof) {
                            Err(e) => Err(e),
                            Ok((rhs_expr, n2)) => {
                                let end = sp_stream_span(ts, j + 1 + n2, eof);
                                let total = (n1 + 1 + n2) as nat;
                                match rhs_expr {
                                    ExprView::Binary {
                                        lhs: r_lhs,
                                        op: r_op,
                                        op_span: r_op_span,
                                        rhs: r_rhs,
                                        span: r_span,
                                    } => {
                                        if op.precedence() == r_op.precedence() && (
                                        !op.is_associative() || !r_op.is_associative()) {
                                            Err(
                                                ErrView::of(
                                                    "non-associative operators must be parenthesized"@,
                                                    start.join(end),
                                                ),
                                            )
                                        } else if op.precedence() <= r_op.precedence() {
                                            let rotated = ExprView::Binary {
                                                lhs: Box::new(lhs_expr),
                                                op,
                                                op_span,
                                                rhs: r_lhs,
                                                span: r_span,
                                            };
                                            Ok(
                                                (
                                                    ExprView::Binary {
                                                        lhs: Box::new(rotated),
                                                        op: r_op,
                                                        op_span: r_op_span,
                                                        rhs: r_rhs,
                                                        span: start.join(end),
                                                    },
                                                    total,
                                                ),
                                            )
                                        } else {
                                            Ok(
                                                (
                                                    ExprView::Binary {
                                                        lhs: Box::new(lhs_expr),
                                                        op,
                                                        op_span,
                                                        rhs: Box::new(rhs_expr),
                                                        span: start.join(end),
                                                    },
                                                    total,
                                                ),
                                            )
                                        }
                                    },
                                    _ => Ok(
                                        (
                                            ExprView::Binary {
                                                lhs: Box::new(lhs_expr),
                                                op,
                                                op_span,
                                                rhs: Box::new(rhs_expr),
                                                span: start.join(end),
                                            },
                                            total,
                                        ),
                                    ),
                                }
                            },
                        }
                    },
                    _ => Ok((lhs_expr, n1)),
                }
            } else {
                Ok((lhs_expr, n1))
            }
        },
    }
}

#[derive(Clone, Debug, Default)]
pub struct Parser {}

impl Parser {
    pub fn new() -> (r: Self) {
        Self {  }
    }

    /// Consumes one token, which must be an identifier, and yields the atomic
    /// expression naming it.
    pub fn parse_atomic_expr(&self, tokens: &mut TokenStream) -> (r: Result<
        AtomicExpression,
        Error,
    >)
        requires
            old(tokens).wf(),
        ensures
            final(tokens)@.toks == old(tokens)@.toks,
            final(tokens)@.eof == old(tokens)@.eof,
            final(tokens).wf(),
            match r {
                Ok(ae) => old(tokens)@.index < old(tokens)@.toks.len() && old(
                    tokens,
                )@.toks[old(tokens)@.index as int].kind == TokenKindView::Identifier(ae.ident@)
                    && final(tokens)@.index == old(tokens)@.index + 1,
                Err(e) => (if old(tokens)@.index == old(tokens)@.toks.len() {
                    final(tokens)@.index == old(tokens)@.index && e@ == ErrView::of(
                        "unexpected end of file"@,
                        old(tokens)@.eof,
                    )
                } else {
                    final(tokens)@.index == old(tokens)@.index + 1 && !(old(tokens)@.toks[old(
                        tokens,
                    )@.index as int].kind matches TokenKindView::Identifier(_)) && e@
                        == ErrView::msg_only("expected atomic expression"@)
                }),
            },
    {
        let next_token = match tokens.next() {
            Ok(t) => t,
            Err(e) => return Err(e),
        };
        match next_token.kind() {
            TokenKind::Identifier(identifier) => Ok(
                AtomicExpression { ident: identifier.clone() },
            ),
            _ => Err(Error::new().with_msg("expected atomic expression")),
        }
    }

    /// Consumes one token, which must be a truth literal, and yields the
    /// truth-value expression holding it.
    pub fn parse_truthvalue_expr(&self, tokens: &mut TokenStream) -> (r: Result<
        TruthValueExpression,
        Error,
    >)
        requires
            old(tokens).wf(),
        ensures
            final(tokens)@.toks == old(tokens)@.toks,
            final(tokens)@.eof == old(tokens)@.eof,
            final(tokens).wf(),
            match r {
                Ok(tv) => old(tokens)@.index < old(tokens)@.toks.len() && old(
                    tokens,
                )@.toks[old(tokens)@.index as int].kind == TokenKindView::TruthValue(tv.value)
                    && final(tokens)@.index == old(tokens)@.index + 1,
                Err(e) => (if old(tokens)@.index == old(tokens)@.toks.len() {
                    final(tokens)@.index == old(tokens)@.index && e@ == ErrView::of(
                        "unexpected end of file"@,
                        old(tokens)@.eof,
                    )
                } else {
                    final(tokens)@.index == old(tokens)@.index + 1 && !(old(tokens)@.toks[old(
                        tokens,
                    )@.index as int].kind matches TokenKindView::TruthValue(_)) && e@
                        == ErrView::msg_only("expected truth value expression"@)
                }),
            },
    {
        let next_token = match tokens.next() {
            Ok(t) => t,
            Err(e) => return Err(e),
        };
        match next_token.kind() {
            TokenKind::TruthValue(value) => Ok(TruthValueExpression { value: *value }),
            _ => Err(Error::new().with_msg("expected truth value expression")),
        }
    }

    /// An opening delimiter, a full expression and a closing delimiter.
    pub fn parse_paren_expr(&self, tokens: &mut TokenStream) -> (r: Result<
        ParenExpression,
        Error,
    >)
        requires
            old(tokens).wf(),
        ensures
            final(tokens)@.toks == old(tokens)@.toks,
            final(tokens)@.eof == old(tokens)@.eof,
            final(tokens).wf(),
            final(tokens)@.index >= old(tokens)@.index,
            match r {
                Ok(pe) => sp_parse_paren(old(tokens)@.toks, old(tokens)@.index as int, old(
                    tokens,
                )@.eof) == Ok::<(ExprView, nat), ErrView>(
                    (pe.expression@, (final(tokens)@.index - old(tokens)@.index) as nat),
                ),
                Err(e) => sp_parse_paren(old(tokens)@.toks, old(tokens)@.index as int, old(
                    tokens,
                )@.eof) == Err::<(ExprView, nat), ErrView>(e@),
            },
        decreases old(tokens)@.toks.len() - old(tokens)@.index, 0int,
    {
        match tokens.expect(&TokenKind::Delimiter(Delimiter::Open)) {
            Ok(_) => (),
            Err(e) => return Err(e),
        };
        let expression = match self.parse(tokens) {
            Ok(e) => e,
            Err(e) => return Err(e),
        };
        match tokens.expect(&TokenKind::Delimiter(Delimiter::Close)) {
            Ok(_) => (),
            Err(e) => return Err(e),
        };
        Ok(ParenExpression { expression })
    }

    /// A term: a parenthesized sub-expression, an atomic identifier or a
    /// truth literal.
    pub fn parse_term_expr(&self, tokens: &mut TokenStream) -> (r: Result<Expression, Error>)
        requires
            old(tokens).wf(),
        ensures
            final(tokens)@.toks == old(tokens)@.toks,
            final(tokens)@.eof == old(tokens)@.eof,
            final(tokens).wf(),
            final(tokens)@.index >= old(tokens)@.index,
            match r {
                Ok(e) => sp_parse_term(old(tokens)@.toks, old(tokens)@.index as int, old(
                    tokens,
                )@.eof) == Ok::<(ExprView, nat), ErrView>(
                    (e@, (final(tokens)@.index - old(tokens)@.index) as nat),
                ),
                Err(e) => sp_parse_term(old(tokens)@.toks, old(tokens)@.index as int, old(
                    tokens,
                )@.eof) == Err::<(ExprView, nat), ErrView>(e@),
            },
        decreases old(tokens)@.toks.len() - old(tokens)@.index, 1int,
    {
        let peeked = match tokens.peek() {
            Ok(t) => t,
            Err(e) => return Err(e),
        };
        match peeked.kind() {
            TokenKind::Delimiter(Delimiter::Open) => {
                let start_span = tokens.span();
                let expression = match self.parse_paren_expr(tokens) {
                    Ok(e) => e,
                    Err(e) => return Err(e),
                };
                let end_span = tokens.span();
                Ok(
                    Expression {
                        kind: Box::new(ExpressionKind::Paren(expression)),
                        span: start_span.join(end_span),
                    },
                )
            },
            TokenKind::Identifier(_) => {
                let start_span = tokens.span();
                let expression = match self.parse_atomic_expr(tokens) {
                    Ok(e) => e,
                    Err(e) => return Err(e),
                };
                let end_span = tokens.span();
                Ok(
                    Expression {
                        kind: Box::new(ExpressionKind::Atomic(expression)),
                        span: start_span.join(end_span),
                    },
                )
            },
            TokenKind::TruthValue(_) => {
                let start_span = tokens.span();
                let expression = match self.parse_truthvalue_expr(tokens) {
                    Ok(e) => e,
                    Err(e) => return Err(e),
                };
                let end_span = tokens.span();
                Ok(
                    Expression {
                        kind: Box::new(ExpressionKind::TruthValue(expression)),
                        span: start_span.join(end_span),
                    },
                )
            },
            _ => {
                let error = Error::new().with_msg("expected expression").with_span(
                    tokens.span(),
                );
                Err(error)
            },
        }
    }

    /// A unary expression: any number of negation operators followed by a
    /// term; `~~~A` nests three unary nodes.
    pub fn parse_unary_expr(&self, tokens: &mut TokenStream) -> (r: Result<Expression, Error>)
        requires
            old(tokens).wf(),
        ensures
            final(tokens)@.toks == old(tokens)@.toks,
            final(tokens)@.eof == old(tokens)@.eof,
            final(tokens).wf(),
            final(tokens)@.index >= old(tokens)@.index,
            match r {
                Ok(e) => sp_parse_unary(old(tokens)@.toks, old(tokens)@.index as int, old(
                    tokens,
                )@.eof) == Ok::<(ExprView, nat), ErrView>(
                    (e@, (final(tokens)@.index - old(tokens)@.index) as nat),
                ),
                Err(e) => sp_parse_unary(old(tokens)@.toks, old(tokens)@.index as int, old(
                    tokens,
                )@.eof) == Err::<(ExprView, nat), ErrView>(e@),
            },
        decreases old(tokens)@.toks.len() - old(tokens)@.index, 2int,
    {
        let start_span = tokens.span();

        match tokens.try_peek_kind() {
            Some(TokenKind::UnaryOperator(operator)) => {
                let operator = *operator;
                let operator_span = match tokens.next() {
                    Ok(t) => t.span(),
                    Err(e) => return Err(e),
                };
                let operand = match self.parse_unary_expr(tokens) {
                    Ok(e) => e,
                    Err(e) => return Err(e),
                };
                let end_span = tokens.span();
                Ok(
                    Expression {
                        kind: Box::new(
                            ExpressionKind::Unary(
                                UnaryExpression { operator, operand, operator_span },
                            ),
                        ),
                        span: start_span.join(end_span),
                    },
                )
            },
            _ => self.parse_term_expr(tokens),
        }
    }

    /// A full expression: a unary expression, optionally followed by a binary
    /// operator and a full expression, with the rotation step that re-leans
    /// the tree to the left and the rejection of ambiguous chains of
    /// non-associative operators.
    pub fn parse(&self, tokens: &mut TokenStream) -> (r: Result<Expression, Error>)
        requires
            old(tokens).wf(),
        ensures
            final(tokens)@.toks == old(tokens)@.toks,
            final(tokens)@.eof == old(tokens)@.eof,
            final(tokens).wf(),
            final(tokens)@.index >= old(tokens)@.index,
            match r {
                Ok(e) => sp_parse(old(tokens)@.toks, old(tokens)@.index as int, old(tokens)@.eof)
                    == Ok::<(ExprView, nat), ErrView>(
                    (e@, (final(tokens)@.index - old(tokens)@.index) as nat),
                ),
                Err(e) => sp_parse(old(tokens)@.toks, old(tokens)@.index as int, old(
                    tokens,
                )@.eof) == Err::<(ExprView, nat), ErrView>(e@),
            },
        decreases old(tokens)@.toks.len() - old(tokens)@.index, 3int,
    {
        let start_span = tokens.span();
        let lhs = match self.parse_unary_expr(tokens) {
            Ok(e) => e,
            Err(e) => return Err(e),
        };

        match tokens.try_peek_kind() {
            Some(TokenKind::BinaryOperator(operator)) => {
                let operator = *operator;
                let operator_span = match tokens.next() {
                    Ok(t) => t.span(),
                    Err(e) => return Err(e),
                };
                let rhs = match self.parse(tokens) {
                    Ok(e) => e,
                    Err(e) => return Err(e),
                };
                let end_span = tokens.span();

                if let ExpressionKind::Binary(rhs_expr) = &*rhs.kind {
                    proof {
                        assert(rhs@ == (ExprView::Binary {
                            lhs: Box::new(rhs_expr.lhs@),
                            op: rhs_expr.operator@,
                            op_span: rhs_expr.operator_span@,
                            rhs: Box::new(rhs_expr.rhs@),
                            span: rhs.span@,
                        }));
                    }
                    if operator.precedence() == rhs_expr.operator.precedence() {
                        if !operator.is_associative() || !rhs_expr.operator.is_associative() {
                            let error = Error::new().with_msg(
                                "non-associative operators must be parenthesized",
                            ).with_span(start_span.join(end_span));
                            return Err(error);
                        }
                    }

                    if operator.precedence() <= rhs_expr.operator.precedence() {
                        let ghost lhs_v = lhs@;
                        let expression = Expression {
                            kind: Box::new(
                                ExpressionKind::Binary(
                                    BinaryExpression {
                                        lhs,
                                        operator,
                                        rhs: rhs_expr.lhs.clone(),
                                        operator_span,
                                    },
                                ),
                            ),
                            span: rhs.span,
                        };
                        proof {
                            assert(expression@ == (ExprView::Binary {
                                lhs: Box::new(lhs_v),
                                op: operator@,
                                op_span: operator_span@,
                                rhs: Box::new(rhs_expr.lhs@),
                                span: rhs.span@,
                            }));
                        }

                        let result = Expression {
                            kind: Box::new(
                                ExpressionKind::Binary(
                                    BinaryExpression {
                                        lhs: expression,
                                        operator: rhs_expr.operator,
                                        rhs: rhs_expr.rhs.clone(),
                                        operator_span: rhs_expr.operator_span,
                                    },
                                ),
                            ),
                            span: start_span.join(end_span),
                        };
                        proof {
                            assert(result@ == (ExprView::Binary {
                                lhs: Box::new(ExprView::Binary {
                                    lhs: Box::new(lhs_v),
                                    op: operator@,
                                    op_span: operator_span@,
                                    rhs: Box::new(rhs_expr.lhs@),
                                    span: rhs.span@,
                                }),
                                op: rhs_expr.operator@,
                                op_span: rhs_expr.operator_span@,
                                rhs: Box::new(rhs_expr.rhs@),
                                span: start_span@.join(end_span@),
                            }));
                        }
                        return Ok(result);
                    }
                }

                Ok(
                    Expression {
                        kind: Box::new(
                            ExpressionKind::Binary(
                                BinaryExpression { lhs, operator, rhs, operator_span },
                            ),
                        ),
                        span: start_span.join(end_span),
                    },
                )
            },
            _ => Ok(lhs),
        }
    }
}

} // verus!

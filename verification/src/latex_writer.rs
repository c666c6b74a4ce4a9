use vstd::prelude::*;
use vstd::string::StrSliceExecFns;
use vstd::string::StringExecFns;

use crate::ast::{
    AtomicExpression, BinaryExpression, ExprView, Expression, ExpressionKind, ParenExpression,
    TruthValueExpression, UnaryExpression,
};
use crate::error::Error;
use crate::text::push_char;
use crate::token::BinOpView;
use crate::writer::ExpressionWriter;

verus! {

/// An identifier with every underscore escaped for LaTeX.
pub open spec fn sp_latex_escape(s: Seq<char>) -> Seq<char>
    decreases s,
{
    if s.len() == 0 {
        Seq::empty()
    } else {
        (if s[0] == '_' {
            seq!['\\', '_']
        } else {
            seq![s[0]]
        }) + sp_latex_escape(s.drop_first())
    }
}

/// The LaTeX rendering of an expression: truth values become `T` and `F`,
/// identifiers are underscore-escaped, and each operator becomes its LaTeX
/// command, whatever spelling it was written with.
pub open spec fn sp_latex(e: ExprView) -> Seq<char>
    decreases e,
{
    match e {
        ExprView::TruthValue { value, .. } => if value {
            "T"@
        } else {
            "F"@
        },
        ExprView::Atomic { name, .. } => sp_latex_escape(name),
        ExprView::Paren { inner, .. } => "("@ + sp_latex(*inner) + ")"@,
        ExprView::Unary { operand, .. } => "\\neg "@ + sp_latex(*operand),
        ExprView::Binary { lhs, op, rhs, .. } => sp_latex(*lhs) + (match op {
            BinOpView::Conjunction(_) => " \\land "@,
            BinOpView::Disjunction(_) => " \\lor "@,
            BinOpView::ExclusiveDisjunction(_) => " \\oplus "@,
            BinOpView::Implication(_) => " \\to "@,
            BinOpView::Equivalence(_) => " \\leftrightarrow "@,
        }) + sp_latex(*rhs),
    }
}

/// Renders expressions as LaTeX mathematics into an internal buffer.
#[derive(Debug, Default)]
pub struct LatexExpressionWriter {
    pub buffer: String,
}

impl LatexExpressionWriter {
    /// Appends `T` or `F` for a truth literal.
    pub fn write_truth_value(&mut self, truth_value: &TruthValueExpression)
        ensures
            final(self).buffer@ == old(self).buffer@ + (if truth_value.value {
                "T"@
            } else {
                "F"@
            }),
    {
        if truth_value.value == true {
            self.buffer.append("T");
        } else {
            self.buffer.append("F");
        }
    }

    /// Appends the identifier with every underscore escaped.
    pub fn write_atomic(&mut self, atomic: &AtomicExpression)
        ensures
            final(self).buffer@ == old(self).buffer@ + sp_latex_escape(atomic.ident@),
    {
        let ident = &atomic.ident;
        let n = ident.as_str().unicode_len();
        let mut i: usize = 0;
        proof {
            assert(ident@.subrange(0, ident@.len() as int) =~= ident@);
        }
        while i < n
            invariant
                i <= n,
                n == ident@.len(),
                self.buffer@ + sp_latex_escape(ident@.subrange(i as int, n as int)) == old(
                    self,
                ).buffer@ + sp_latex_escape(ident@),
            decreases n - i,
        {
            proof {
                let rest = ident@.subrange(i as int, n as int);
                assert(rest[0] == ident@[i as int]);
                assert(rest.drop_first() =~= ident@.subrange(i as int + 1, n as int));
            }
            let ghost buf_pre = self.buffer@;
            let c = ident.as_str().get_char(i);
            if c == '_' {
                self.buffer.append("\\_");
            } else {
                push_char(&mut self.buffer, c);
            }
            proof {
                if c == '_' {
                    assert(buf_pre + "\\_"@ =~= buf_pre + seq!['\\', '_']) by {
                        reveal_strlit("\\_");
                    }
                    assert(buf_pre + seq!['\\', '_'] + sp_latex_escape(
                        ident@.subrange(i as int + 1, n as int),
                    ) =~= buf_pre + (seq!['\\', '_'] + sp_latex_escape(
                        ident@.subrange(i as int + 1, n as int),
                    )));
                } else {
                    assert(buf_pre.push(c) =~= buf_pre + seq![c]);
                    assert(buf_pre + seq![c] + sp_latex_escape(
                        ident@.subrange(i as int + 1, n as int),
                    ) =~= buf_pre + (seq![c] + sp_latex_escape(
                        ident@.subrange(i as int + 1, n as int),
                    )));
                }
            }
            i = i + 1;
        }
        proof {
            assert(ident@.subrange(n as int, n as int) =~= Seq::<char>::empty());
            assert(self.buffer@ + Seq::<char>::empty() =~= self.buffer@);
        }
    }

    /// Appends the operand's rendering wrapped in parentheses.
    pub fn write_paren(&mut self, paren: &ParenExpression) -> (r: Result<(), Error>)
        ensures
            r is Ok,
            final(self).buffer@ == old(self).buffer@ + ("("@ + sp_latex(paren.expression@)
                + ")"@),
        decreases paren,
    {
        self.buffer.append("(");
        match self.write_expression_impl(&paren.expression) {
            Ok(_) => (),
            Err(e) => return Err(e),
        };
        self.buffer.append(")");
        proof {
            assert(old(self).buffer@ + "("@ + sp_latex(paren.expression@) + ")"@ =~= old(
                self,
            ).buffer@ + ("("@ + sp_latex(paren.expression@) + ")"@));
        }
        Ok(())
    }

    /// Appends the negation command and the operand's rendering.
    pub fn write_unary(&mut self, unary: &UnaryExpression) -> (r: Result<(), Error>)
        ensures
            r is Ok,
            final(self).buffer@ == old(self).buffer@ + ("\\neg "@ + sp_latex(unary.operand@)),
        decreases unary,
    {
        self.buffer.append("\\neg ");
        match self.write_expression_impl(&unary.operand) {
            Ok(_) => (),
            Err(e) => return Err(e),
        };
        proof {
            assert(old(self).buffer@ + "\\neg "@ + sp_latex(unary.operand@) =~= old(
                self,
            ).buffer@ + ("\\neg "@ + sp_latex(unary.operand@)));
        }
        Ok(())
    }

    /// Appends both operands' renderings around the operator's LaTeX
    /// command.
    pub fn write_binary(&mut self, binary: &BinaryExpression) -> (r: Result<(), Error>)
        ensures
            r is Ok,
            final(self).buffer@ == old(self).buffer@ + (sp_latex(binary.lhs@) + (match binary
                .operator@ {
                BinOpView::Conjunction(_) => " \\land "@,
                BinOpView::Disjunction(_) => " \\lor "@,
                BinOpView::ExclusiveDisjunction(_) => " \\oplus "@,
                BinOpView::Implication(_) => " \\to "@,
                BinOpView::Equivalence(_) => " \\leftrightarrow "@,
            }) + sp_latex(binary.rhs@)),
        decreases binary,
    {
        match self.write_expression_impl(&binary.lhs) {
            Ok(_) => (),
            Err(e) => return Err(e),
        };

        match binary.operator {
            crate::token::BinaryOperator::Conjunction(_) => self.buffer.append(" \\land "),
            crate::token::BinaryOperator::Disjunction(_) => self.buffer.append(" \\lor "),
            crate::token::BinaryOperator::ExclusiveDisjunction(_) => self.buffer.append(
                " \\oplus ",
            ),
            crate::token::BinaryOperator::Implication(_) => self.buffer.append(" \\to "),
            crate::token::BinaryOperator::Equivalence(_) => self.buffer.append(
                " \\leftrightarrow ",
            ),
        }

        match self.write_expression_impl(&binary.rhs) {
            Ok(_) => (),
            Err(e) => return Err(e),
        };
        proof {
            let op_latex = match binary.operator@ {
                BinOpView::Conjunction(_) => " \\land "@,
                BinOpView::Disjunction(_) => " \\lor "@,
                BinOpView::ExclusiveDisjunction(_) => " \\oplus "@,
                BinOpView::Implication(_) => " \\to "@,
                BinOpView::Equivalence(_) => " \\leftrightarrow "@,
            };
            assert(old(self).buffer@ + sp_latex(binary.lhs@) + op_latex + sp_latex(
                binary.rhs@,
            ) =~= old(self).buffer@ + (sp_latex(binary.lhs@) + op_latex + sp_latex(
                binary.rhs@,
            )));
        }
        Ok(())
    }

    /// Appends the LaTeX rendering of a whole expression.
    pub fn write_expression_impl(&mut self, expr: &Expression) -> (r: Result<(), Error>)
        ensures
            r is Ok,
            final(self).buffer@ == old(self).buffer@ + sp_latex(expr@),
        decreases expr,
    {
        match &*expr.kind {
            ExpressionKind::TruthValue(truth_value) => {
                self.write_truth_value(truth_value);
                Ok(())
            },
            ExpressionKind::Atomic(atomic) => {
                self.write_atomic(atomic);
                Ok(())
            },
            ExpressionKind::Paren(paren) => self.write_paren(paren),
            ExpressionKind::Unary(unary) => self.write_unary(unary),
            ExpressionKind::Binary(binary) => self.write_binary(binary),
        }
    }

    /// The buffered rendering wrapped in an inline mathematics environment.
    pub fn finalize(self) -> (r: String)
        ensures
            r@ == "$"@ + self.buffer@ + "$"@,
    {
        let mut out = "$".to_owned();
        out.append(self.buffer.as_str());
        out.append("$");
        out
    }
}

impl ExpressionWriter for LatexExpressionWriter {
    type Error = Error;

    fn write_expression(&mut self, expr: &Expression) -> Result<(), Self::Error> {
        self.write_expression_impl(expr)
    }
}

} // verus!

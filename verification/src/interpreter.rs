use vstd::prelude::*;

use crate::ast::{AtomicExpression, ExpressionKind, ExprView, Expression, TruthValueExpression};
use crate::error::{ErrView, Error};
use crate::solve::sp_sol_get;
use crate::token::{BinOpView, BinaryOperator, UnaryOperator};

verus! {

/// The identifiers of a list of atomic expressions, in order.
pub open spec fn sp_idents(v: Seq<AtomicExpression>) -> Seq<Seq<char>> {
    Seq::new(v.len(), |i: int| v[i].ident@)
}

/// What [`Interpreter::interpret`] yields under the variable assignment
/// `env`: the truth value of the expression, or an "unknown identifier"
/// error at the span of the first unbound atom it meets. The right operand
/// of a binary expression is evaluated before the left one.
pub open spec fn sp_interp(e: ExprView, env: Seq<(Seq<char>, bool)>) -> Result<bool, ErrView>
    decreases e,
{
    match e {
        ExprView::TruthValue { value, .. } => Ok(value),
        ExprView::Atomic { name, span } => match sp_sol_get(env, name) {
            Some(v) => Ok(v),
            None => Err(ErrView::of("unknown identifier"@, span)),
        },
        ExprView::Paren { inner, .. } => sp_interp(*inner, env),
        ExprView::Unary { operand, .. } => match sp_interp(*operand, env) {
            Ok(v) => Ok(!v),
            Err(er) => Err(er),
        },
        ExprView::Binary { lhs, op, rhs, .. } => match sp_interp(*rhs, env) {
            Err(er) => Err(er),
            Ok(rv) => match sp_interp(*lhs, env) {
                Err(er) => Err(er),
                Ok(lv) => Ok(
                    match op {
                        BinOpView::Conjunction(_) => lv && rv,
                        BinOpView::Disjunction(_) => lv || rv,
                        BinOpView::ExclusiveDisjunction(_) => lv != rv,
                        BinOpView::Implication(_) => !lv || rv,
                        BinOpView::Equivalence(_) => lv == rv,
                    },
                ),
            },
        },
    }
}

/// A tree-walking evaluator: it substitutes a fixed variable assignment and
/// computes a truth value, collecting the atomic expressions it meets.
#[derive(Debug)]
pub struct Interpreter {
    pub variables: Vec<(String, bool)>,
    pub atomic_expressions: Vec<AtomicExpression>,
    pub errors: Vec<Error>,
}

/// The value the assignment list binds a variable to, if any; the first
/// matching pair decides.
fn lookup(vars: &Vec<(String, bool)>, name: &str) -> (r: Option<bool>)
    ensures
        r == sp_sol_get(vars.deep_view(), name@),
{
    let mut i: usize = 0;
    proof {
        assert(vars.deep_view().subrange(0, vars.deep_view().len() as int) =~= vars.deep_view());
    }
    while i < vars.len()
        invariant
            i <= vars.len(),
            vars.deep_view().len() == vars.len(),
            sp_sol_get(vars.deep_view(), name@) == sp_sol_get(
                vars.deep_view().subrange(i as int, vars.deep_view().len() as int),
                name@,
            ),
        decreases vars.len() - i,
    {
        proof {
            let dv = vars.deep_view();
            let rest = dv.subrange(i as int, dv.len() as int);
            assert(rest[0] == dv[i as int]);
            assert(rest.drop_first() =~= dv.subrange(i as int + 1, dv.len() as int));
        }
        if crate::text::str_eq(vars[i].0.as_str(), name) {
            return Some(vars[i].1);
        }
        i = i + 1;
    }
    proof {
        let dv = vars.deep_view();
        assert(dv.subrange(dv.len() as int, dv.len() as int) =~= Seq::<
            (Seq<char>, bool),
        >::empty());
    }
    None
}

impl Default for Interpreter {
    fn default() -> (r: Self)
        ensures
            r.variables.deep_view() == Seq::<(Seq<char>, bool)>::empty(),
            r.atomic_expressions@ == Seq::<AtomicExpression>::empty(),
            r.errors@ == Seq::<Error>::empty(),
    {
        Interpreter::new()
    }
}

impl Interpreter {
    /// Creates a new [`Interpreter`] with no variables bound.
    pub fn new() -> (r: Self)
        ensures
            r.variables.deep_view() == Seq::<(Seq<char>, bool)>::empty(),
            r.atomic_expressions@ == Seq::<AtomicExpression>::empty(),
            r.errors@ == Seq::<Error>::empty(),
    {
        let r = Self { variables: Vec::new(), atomic_expressions: Vec::new(), errors: Vec::new() };
        proof {
            assert(r.variables.deep_view() =~= Seq::<(Seq<char>, bool)>::empty());
            assert(r.atomic_expressions@ =~= Seq::<AtomicExpression>::empty());
            assert(r.errors@ =~= Seq::<Error>::empty());
        }
        r
    }

    /// Collects the atomic sub-expressions of the expression, left to right.
    pub fn extract_atomic_expressions(&mut self, expression: &Expression)
        ensures
            final(self).variables == old(self).variables,
            final(self).errors == old(self).errors,
            sp_idents(final(self).atomic_expressions@) == sp_idents(
                old(self).atomic_expressions@,
            ) + expression@.atoms(),
        decreases expression,
    {
        match &*expression.kind {
            ExpressionKind::Atomic(atomic_expression) => {
                self.atomic_expressions.push(atomic_expression.clone());
                proof {
                    assert(sp_idents(self.atomic_expressions@) =~= sp_idents(
                        old(self).atomic_expressions@,
                    ) + expression@.atoms());
                }
            },
            ExpressionKind::Unary(unary_expression) => {
                self.extract_atomic_expressions(&unary_expression.operand);
            },
            ExpressionKind::Binary(binary_expression) => {
                self.extract_atomic_expressions(&binary_expression.lhs);
                self.extract_atomic_expressions(&binary_expression.rhs);
                proof {
                    assert(sp_idents(old(self).atomic_expressions@)
                        + binary_expression.lhs@.atoms() + binary_expression.rhs@.atoms()
                        =~= sp_idents(old(self).atomic_expressions@) + (
                    binary_expression.lhs@.atoms() + binary_expression.rhs@.atoms()));
                }
            },
            ExpressionKind::TruthValue(_) => {
                proof {
                    assert(sp_idents(self.atomic_expressions@) =~= sp_idents(
                        self.atomic_expressions@,
                    ) + Seq::<Seq<char>>::empty());
                }
            },
            ExpressionKind::Paren(paren_expression) => {
                self.extract_atomic_expressions(&paren_expression.expression);
            },
        }
    }

    /// Evaluates the expression under the interpreter's variable assignment;
    /// fails with an "unknown identifier" error at the span of the first
    /// unbound atom met. The right operand of a binary expression is
    /// evaluated first.
    pub fn interpret(&mut self, expression: &Expression) -> (r: Result<
        TruthValueExpression,
        Error,
    >)
        ensures
            final(self).variables == old(self).variables,
            match r {
                Ok(tv) => sp_interp(expression@, old(self).variables.deep_view()) == Ok::<
                    bool,
                    ErrView,
                >(tv.value),
                Err(er) => sp_interp(expression@, old(self).variables.deep_view()) == Err::<
                    bool,
                    ErrView,
                >(er@),
            },
        decreases expression,
    {
        match &*expression.kind {
            ExpressionKind::Paren(paren) => self.interpret(&paren.expression),
            ExpressionKind::Atomic(atomic) => {
                self.atomic_expressions.push(atomic.clone());

                if let Some(value) = lookup(&self.variables, atomic.ident.as_str()) {
                    Ok(TruthValueExpression { value })
                } else {
                    let error = Error::new().with_msg("unknown identifier").with_span(
                        expression.span,
                    );
                    self.errors.push(error.clone());
                    Err(error)
                }
            },
            ExpressionKind::Unary(unary) => {
                let operand = match self.interpret(&unary.operand) {
                    Ok(v) => v,
                    Err(er) => return Err(er),
                };
                match unary.operator {
                    UnaryOperator::Negation(_) => Ok(
                        TruthValueExpression { value: !operand.value },
                    ),
                }
            },
            ExpressionKind::Binary(binary) => {
                let rhs = match self.interpret(&binary.rhs) {
                    Ok(v) => v,
                    Err(er) => return Err(er),
                };
                let lhs = match self.interpret(&binary.lhs) {
                    Ok(v) => v,
                    Err(er) => return Err(er),
                };
                match binary.operator {
                    BinaryOperator::Conjunction(_) => Ok(
                        TruthValueExpression { value: lhs.value && rhs.value },
                    ),
                    BinaryOperator::Disjunction(_) => Ok(
                        TruthValueExpression { value: lhs.value || rhs.value },
                    ),
                    BinaryOperator::ExclusiveDisjunction(_) => Ok(
                        TruthValueExpression { value: lhs.value != rhs.value },
                    ),
                    BinaryOperator::Implication(_) => Ok(
                        TruthValueExpression { value: !lhs.value || rhs.value },
                    ),
                    BinaryOperator::Equivalence(_) => Ok(
                        TruthValueExpression { value: lhs.value == rhs.value },
                    ),
                }
            },
            ExpressionKind::TruthValue(truthvalue_expr) => Ok(
                TruthValueExpression { value: truthvalue_expr.value },
            ),
        }
    }
}

} // verus!

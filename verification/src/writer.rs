use vstd::prelude::*;

use crate::ast::Expression;
use crate::tableau::Tableau;

verus! {

/// A sink that renders expressions; the rendering collaborators implement
/// it.
pub trait ExpressionWriter {
    type Error;

    fn write_expression(&mut self, expr: &Expression) -> Result<(), Self::Error>;
}

/// A sink that renders whole tableaux; the rendering collaborators implement
/// it.
pub trait TableauWriter {
    type Error;

    fn write_tableau(&mut self, tableau: &Tableau) -> Result<(), Self::Error>;
}

} // verus!

//! Parsing and solving of propositional-logic expressions.
//!
//! A source string is tokenized into a [`token_stream::TokenStream`], parsed
//! into an [`ast::Expression`], decomposed by the analytic-tableau method into
//! a [`tableau::Tableau`], and folded into the minimal satisfying partial
//! assignments, a [`solve::Solutions`].
//!
//! The [`semantics`] module states and proves the soundness and the
//! completeness of that pipeline: an assignment extends one of the cleaned
//! solutions exactly when it gives the expression the expected truth value.

pub mod ast;
pub mod error;
pub mod interpreter;
pub mod latex_writer;
pub mod parser;
pub mod semantics;
pub mod solve;
pub mod span;
pub mod tableau;
pub mod text;
pub mod token;
pub mod token_stream;
pub mod writer;

pub use ast::AtomicExpression;
pub use ast::BinaryExpression;
pub use ast::Expression;
pub use ast::ExpressionKind;
pub use ast::ParenExpression;
pub use ast::TruthValueExpression;
pub use ast::UnaryExpression;
pub use error::Error;
pub use interpreter::Interpreter;
pub use latex_writer::LatexExpressionWriter;
pub use parser::Parser;
pub use solve::Solution;
pub use solve::Solutions;
pub use span::Span;
pub use tableau::Expectation;
pub use tableau::Tableau;
pub use tableau::TableauBranch;
pub use tableau::TableauBuilder;
pub use token::BinaryOperator;
pub use token::Delimiter;
pub use token::Token;
pub use token::TokenKind;
pub use token::UnaryOperator;
pub use token_stream::TokenStream;
pub use writer::ExpressionWriter;
pub use writer::TableauWriter;

pub mod ast;
pub mod desugar;
pub mod expr;
pub mod term;

pub use ast::{Ast, AstView};
pub use desugar::desugar;
pub use expr::{Expr, ExprView};
pub use term::{Term, TermInner, TermView};

pub mod ast;
pub mod eval;
pub mod lexer;
pub mod parser;
pub mod programs;
pub mod soundness;
pub mod types;

pub use ast::{BinOp, Expr, Type};
pub use eval::{eval, Value};
pub use parser::parse_expr;
pub use types::type_of;

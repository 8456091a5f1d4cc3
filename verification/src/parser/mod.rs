pub mod ast;
pub mod error;
pub mod incomplete;
pub mod model;
pub mod nesting;
pub mod parser;
pub mod precedence;
pub mod se_value;

pub use ast::{
    AssignTarget, BinaryOp, Block, Expr, IfBranch, Import, Item, MapEntry, Param, Program, Stmt,
    UnaryOp,
};
pub use error::ParseError;
pub use incomplete::needs_more_input;
pub use parser::parse;
pub use se_value::check_se_value;

//! A small interpreter for a parenthesized expression language: a lexer and
//! recursive-descent parser from text to syntax trees, a value model, a scope
//! stack of global and local bindings, and a tree-walking evaluator with a
//! fixed table of native functions and special forms. Each part is proved
//! against a mathematical model: `parse_all` for the parser, `print_node` for
//! the printer, and `eval_spec` for the evaluator.
pub mod ast;
pub mod datatypes;
pub mod lexer;
pub mod native_functions;
pub mod native_macros;
pub mod parser;
pub mod printer;
pub mod semantics;
pub mod vm;

pub use ast::ASTNode;
pub use datatypes::{Data, EvalError, NativeFn, NativeMacro};
pub use native_functions::{load_native_functions, modulo, plus};
pub use native_macros::load_native_macros;
pub use parser::{balanced, parse, Parser};
pub use vm::VM;
pub mod scopes;

//! Front end of the Pace compiler: string interning, the type arena and
//! the shared compiler session, lexical scopes and name resolution, the
//! typing environment, the parser and the type checker.

pub mod interner;
pub mod types;
pub mod session;
pub mod scope;
pub mod ast;
pub mod diagnostics;
pub mod resolver;
pub mod modules;
pub mod env;
pub mod token;
pub mod parser;
pub mod spelling;
pub mod checker_types;
pub mod tables;
pub mod checker;
pub mod check_types;
pub mod substitution;
pub mod check_rules;
pub mod mangle;
pub mod check_call;
pub mod check_expr;
pub mod check_stmt;
pub mod check_decl;
pub mod runtime;
pub mod laws;

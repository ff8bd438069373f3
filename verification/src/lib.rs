pub mod ast;
pub mod builtins;
pub mod decimal;
pub mod diagnostics;
pub mod lexer;
pub mod loader;
pub mod parser;
pub mod span;
pub mod stdsig;
pub mod text;
pub mod text_fmt;
pub mod token;
pub mod types;
pub mod resolver;
pub mod typecheck;
pub mod value;
pub mod eval;
pub mod session;

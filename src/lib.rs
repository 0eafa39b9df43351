pub mod builtins;
pub mod engine;
pub mod lexer;
pub mod parser;
pub mod scm_utils;
pub mod util;
pub mod value;

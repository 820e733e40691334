pub mod grammar;
pub mod lexer;
pub mod fup;
pub mod repl;
pub mod passthrough;
pub mod layout;

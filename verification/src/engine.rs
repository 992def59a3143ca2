pub mod diagnostics;
pub mod file_extension;
pub mod lexer;
pub mod run;
pub mod text;

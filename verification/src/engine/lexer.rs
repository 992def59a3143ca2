//! The scanner and what it works with: tokens, source positions, the
//! running context and the cursor over the source bytes.

pub mod context;
pub mod cursor;
pub mod laws;
pub mod model;
pub mod scanner;
pub mod token;

pub use context::{MushContext, MushContextView};
pub use scanner::Scanner;
pub use token::{
    KeywordToken, LexemeToken, LexemeView, Position, SourcePosition, Token, TokenView,
};

//! The scanner as a state machine over mathematical values: what one step
//! does to the state of a scan, and what a whole scan comes to.
//!
//! A scan reads the source one character at a time. Every character that is
//! consumed counts as one column and, unless it is a newline, is added to
//! the text of the current line. A character that only ends a token (the
//! character after a number, or after a lone `!` or `/`) is looked at and
//! left for the next step. A read that finds no well-formed character ends
//! the scan at once.

use crate::engine::diagnostics::error::MushErrorView;
use crate::engine::lexer::context::MushContextView;
use crate::engine::lexer::cursor::{lemma_scalar_at_advances, scalar_at};
use crate::engine::lexer::token::{KeywordToken, LexemeView, Position, TokenView};
use vstd::prelude::*;

verus! {

/// The state of a scan.
pub struct ScanState {
    /// The byte offset of the next character to read.
    pub pos: nat,
    /// The file, the text of the current line as far as it was read, the
    /// number of the current line and the column of the last character read.
    pub ctx: MushContextView,
    /// The tokens found so far, in the order in which they were found.
    pub tokens: Seq<TokenView>,
    /// The faults recorded so far, in the order in which they were found.
    pub errors: Seq<MushErrorView>,
}

/// How a part of a scan ends: `Ok` with the state it has reached, or `Err`
/// with the state in which a read found no well-formed character.
pub type Scanned = Result<ScanState, ScanState>;

impl ScanState {
    /// The position of the last character read.
    pub open spec fn position(self) -> Position {
        Position { line: self.ctx.line_number, column: self.ctx.offset }
    }

    /// The state after the character `c`, which ends before byte `next`, has
    /// been consumed: it is one more column, and one more character of the
    /// current line.
    pub open spec fn consume(self, c: char, next: nat) -> ScanState {
        ScanState {
            pos: next,
            ctx: MushContextView {
                line: self.ctx.line.push(c),
                offset: self.ctx.offset + 1,
                ..self.ctx
            },
            ..self
        }
    }

    /// The state at the start of the next line: the line number is one
    /// higher, the column is 0 and the text of the line is empty.
    pub open spec fn break_line(self) -> ScanState {
        ScanState {
            ctx: MushContextView {
                line: Seq::empty(),
                line_number: self.ctx.line_number + 1,
                offset: 0,
                ..self.ctx
            },
            ..self
        }
    }

    pub open spec fn with_keyword(self, token_type: KeywordToken, at: Position) -> ScanState {
        ScanState {
            tokens: self.tokens.push(TokenView::KeywordToken { token_type, position: at }),
            ..self
        }
    }

    pub open spec fn with_lexeme(self, token_type: LexemeView, at: Position) -> ScanState {
        ScanState {
            tokens: self.tokens.push(TokenView::LexemeToken { token_type, position: at }),
            ..self
        }
    }

    pub open spec fn with_error(self, error: MushErrorView) -> ScanState {
        ScanState { errors: self.errors.push(error), ..self }
    }
}

/// The token of a character that is a token by itself.
pub open spec fn punctuation(c: char) -> Option<KeywordToken> {
    if c == '(' {
        Some(KeywordToken::LeftParen)
    } else if c == ')' {
        Some(KeywordToken::RightParen)
    } else if c == '{' {
        Some(KeywordToken::LeftCurl)
    } else if c == '}' {
        Some(KeywordToken::RightCurl)
    } else if c == ',' {
        Some(KeywordToken::Comma)
    } else if c == '.' {
        Some(KeywordToken::Dot)
    } else if c == '-' {
        Some(KeywordToken::Minus)
    } else if c == '+' {
        Some(KeywordToken::Plus)
    } else if c == ';' {
        Some(KeywordToken::SemiColon)
    } else if c == '*' {
        Some(KeywordToken::Star)
    } else {
        None
    }
}

pub open spec fn is_digit(c: char) -> bool {
    '0' <= c <= '9'
}

/// Space, tab and carriage return separate tokens and are no token.
pub open spec fn is_blank(c: char) -> bool {
    c == ' ' || c == '\t' || c == '\r'
}

/// The token of a number literal: a float where a `.` was read, else an
/// integer.
pub open spec fn number_lexeme(text: Seq<char>, is_float: bool) -> LexemeView {
    if is_float {
        LexemeView::Float(text)
    } else {
        LexemeView::Integer(text)
    }
}

/// The scan after a `!` read at `at`: with `=` next it is `!=`, and the `=`
/// is consumed; with anything else next, or nothing, it is `!`.
pub open spec fn after_bang(src: Seq<u8>, s: ScanState, at: Position) -> Scanned {
    if s.pos >= src.len() {
        Ok(s.with_keyword(KeywordToken::Bang, at))
    } else {
        match scalar_at(src, s.pos) {
            None => Err(s),
            Some((c, next)) => if c == '=' {
                Ok(s.consume(c, next).with_keyword(KeywordToken::BangEqual, at))
            } else {
                Ok(s.with_keyword(KeywordToken::Bang, at))
            },
        }
    }
}

/// The scan inside a line comment: consumes characters up to the newline
/// that ends the line, or to the end of the source. The newline is left to
/// be read as the token that it is.
pub open spec fn skip_comment(src: Seq<u8>, s: ScanState) -> Scanned
    decreases src.len() - s.pos,
{
    if s.pos >= src.len() {
        Ok(s)
    } else {
        match scalar_at(src, s.pos) {
            None => Err(s),
            Some((c, next)) => if c == '\n' {
                Ok(s)
            } else {
                skip_comment(src, s.consume(c, next))
            },
        }
    }
}

/// The scan after a `/` read at `at`: with a second `/` next it is a line
/// comment, which gives no token; with anything else next, or nothing, it
/// is `/`.
pub open spec fn after_slash(src: Seq<u8>, s: ScanState, at: Position) -> Scanned {
    if s.pos >= src.len() {
        Ok(s.with_keyword(KeywordToken::Slash, at))
    } else {
        match scalar_at(src, s.pos) {
            None => Err(s),
            Some((c, next)) => if c == '/' {
                skip_comment(src, s.consume(c, next))
            } else {
                Ok(s.with_keyword(KeywordToken::Slash, at))
            },
        }
    }
}

/// The scan inside a string literal whose opening quote was read at `at`
/// and of which `text` has been read since. A closing quote is consumed and
/// gives a string token with the text between the quotes. A newline, or the
/// end of the source, gives a fault with the text read so far and the
/// context at that moment; the newline is left to be read as the token that
/// it is.
pub open spec fn string_from(src: Seq<u8>, s: ScanState, text: Seq<char>, at: Position) -> Scanned
    decreases src.len() - s.pos,
{
    if s.pos >= src.len() {
        Ok(s.with_error(MushErrorView::IncompleteString { partial: text, ctx: s.ctx }))
    } else {
        match scalar_at(src, s.pos) {
            None => Err(s),
            Some((c, next)) => if c == '"' {
                Ok(s.consume(c, next).with_lexeme(LexemeView::String(text), at))
            } else if c == '\n' {
                Ok(s.with_error(MushErrorView::IncompleteString { partial: text, ctx: s.ctx }))
            } else {
                string_from(src, s.consume(c, next), text.push(c), at)
            },
        }
    }
}

/// The scan inside a number literal whose first digit was read at `at` and
/// of which `text` has been read so far. Digits are consumed; so is the
/// first `.`, which makes the literal a float, whether or not a digit
/// follows it. Any other character, a second `.` too, ends the literal and
/// is left for the next step, and so does the end of the source.
pub open spec fn number_from(
    src: Seq<u8>,
    s: ScanState,
    text: Seq<char>,
    is_float: bool,
    at: Position,
) -> Scanned
    decreases src.len() - s.pos,
{
    if s.pos >= src.len() {
        Ok(s.with_lexeme(number_lexeme(text, is_float), at))
    } else {
        match scalar_at(src, s.pos) {
            None => Err(s),
            Some((c, next)) => if is_digit(c) {
                number_from(src, s.consume(c, next), text.push(c), is_float, at)
            } else if c == '.' && !is_float {
                number_from(src, s.consume(c, next), text.push(c), true, at)
            } else {
                Ok(s.with_lexeme(number_lexeme(text, is_float), at))
            },
        }
    }
}

/// One step of the scan: reads the next character and what belongs to it.
pub open spec fn step(src: Seq<u8>, s: ScanState) -> Scanned {
    match scalar_at(src, s.pos) {
        None => Err(s),
        Some((c, next)) => {
            let read = s.consume(c, next);
            let at = read.position();
            if c == '\n' {
                Ok(read.with_keyword(KeywordToken::NewLine, at).break_line())
            } else if punctuation(c) is Some {
                Ok(read.with_keyword(punctuation(c)->0, at))
            } else if c == '!' {
                after_bang(src, read, at)
            } else if c == '/' {
                after_slash(src, read, at)
            } else if c == '"' {
                string_from(src, read, Seq::empty(), at)
            } else if is_digit(c) {
                number_from(src, read, seq![c], false, at)
            } else if is_blank(c) {
                Ok(read)
            } else {
                Ok(
                    read.with_error(
                        MushErrorView::UnknownCharacter { unknown_character: c, ctx: read.ctx },
                    ),
                )
            }
        },
    }
}

/// A comment never moves the cursor back, nor past the end of the source.
pub proof fn lemma_skip_comment_forward(src: Seq<u8>, s: ScanState)
    ensures
        match skip_comment(src, s) {
            Ok(after) => s.pos <= after.pos && (s.pos <= src.len() ==> after.pos <= src.len()),
            Err(after) => s.pos <= after.pos && (s.pos <= src.len() ==> after.pos <= src.len()),
        },
    decreases src.len() - s.pos,
{
    if s.pos < src.len() {
        match scalar_at(src, s.pos) {
            None => {},
            Some((c, next)) => {
                if c != '\n' {
                    lemma_skip_comment_forward(src, s.consume(c, next));
                }
            },
        }
    }
}

/// A string literal never moves the cursor back, nor past the end of the
/// source.
pub proof fn lemma_string_forward(src: Seq<u8>, s: ScanState, text: Seq<char>, at: Position)
    ensures
        match string_from(src, s, text, at) {
            Ok(after) => s.pos <= after.pos && (s.pos <= src.len() ==> after.pos <= src.len()),
            Err(after) => s.pos <= after.pos && (s.pos <= src.len() ==> after.pos <= src.len()),
        },
    decreases src.len() - s.pos,
{
    if s.pos < src.len() {
        match scalar_at(src, s.pos) {
            None => {},
            Some((c, next)) => {
                if c != '"' && c != '\n' {
                    lemma_string_forward(src, s.consume(c, next), text.push(c), at);
                }
            },
        }
    }
}

/// A number literal never moves the cursor back, nor past the end of the
/// source.
pub proof fn lemma_number_forward(
    src: Seq<u8>,
    s: ScanState,
    text: Seq<char>,
    is_float: bool,
    at: Position,
)
    ensures
        match number_from(src, s, text, is_float, at) {
            Ok(after) => s.pos <= after.pos && (s.pos <= src.len() ==> after.pos <= src.len()),
            Err(after) => s.pos <= after.pos && (s.pos <= src.len() ==> after.pos <= src.len()),
        },
    decreases src.len() - s.pos,
{
    if s.pos < src.len() {
        match scalar_at(src, s.pos) {
            None => {},
            Some((c, next)) => {
                if is_digit(c) {
                    lemma_number_forward(src, s.consume(c, next), text.push(c), is_float, at);
                } else if c == '.' && !is_float {
                    lemma_number_forward(src, s.consume(c, next), text.push(c), true, at);
                }
            },
        }
    }
}

/// A step that finds a character to read consumes at least that character,
/// and nothing past the end of the source.
pub proof fn lemma_step_forward(src: Seq<u8>, s: ScanState)
    ensures
        step(src, s) matches Ok(after) ==> s.pos < after.pos <= src.len(),
        step(src, s) matches Err(after) ==> s.pos <= after.pos && (s.pos <= src.len()
            ==> after.pos <= src.len()),
{
    match scalar_at(src, s.pos) {
        None => {},
        Some((c, next)) => {
            lemma_scalar_at_advances(src, s.pos);
            let read = s.consume(c, next);
            let at = read.position();
            if c == '\n' || punctuation(c) is Some {
            } else if c == '/' {
                if read.pos < src.len() {
                    match scalar_at(src, read.pos) {
                        None => {},
                        Some((c2, next2)) => {
                            lemma_scalar_at_advances(src, read.pos);
                            if c2 == '/' {
                                lemma_skip_comment_forward(src, read.consume(c2, next2));
                            }
                        },
                    }
                }
            } else if c == '!' {
                if read.pos < src.len() && scalar_at(src, read.pos) is Some {
                    lemma_scalar_at_advances(src, read.pos);
                }
            } else if c == '"' {
                lemma_string_forward(src, read, Seq::empty(), at);
            } else if is_digit(c) {
                lemma_number_forward(src, read, seq![c], false, at);
            }
        },
    }
}

/// A whole scan from state `s`: steps until the source is exhausted, then
/// adds the end-of-file token, at the position of the last character read.
/// It ends early, and without that token, at the first read that finds no
/// well-formed character.
pub open spec fn run(src: Seq<u8>, s: ScanState) -> Scanned
    decreases src.len() - s.pos,
{
    if s.pos >= src.len() {
        Ok(s.with_keyword(KeywordToken::EndOfFile, s.position()))
    } else {
        match step(src, s) {
            Ok(after) => {
                proof {
                    lemma_step_forward(src, s);
                }
                run(src, after)
            },
            Err(after) => Err(after),
        }
    }
}

} // verus!

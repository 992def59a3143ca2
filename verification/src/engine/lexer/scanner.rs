//! The scanner: drives the cursor over the source bytes and collects tokens
//! and faults.

use crate::engine::diagnostics::error::{errors_view, MushError, MushErrorView};
use crate::engine::lexer::context::MushContext;
use crate::engine::lexer::cursor::{lemma_scalar_at_advances, read_scalar, scalar_at};
use crate::engine::lexer::laws::lemma_run_succeeds_on_utf8;
use crate::engine::lexer::model::{
    after_bang, after_slash, lemma_step_forward, number_from, number_lexeme, punctuation, run,
    skip_comment, step, string_from, ScanState, Scanned,
};
use crate::engine::lexer::token::{
    tokens_view, KeywordToken, LexemeToken, SourcePosition, Token,
};
use vstd::prelude::*;
use vstd::string::*;
use vstd::utf8::valid_utf8;

verus! {

/// Scans one source. It owns the bytes of the source, the cursor into them,
/// and the tokens and faults found so far.
pub struct Scanner {
    source: Vec<u8>,
    buf_reader_position: usize,
    tokens: Vec<Token>,
    errors: Vec<MushError>,
    scanner_ctx: MushContext,
}

impl View for Scanner {
    type V = ScanState;

    closed spec fn view(&self) -> ScanState {
        ScanState {
            pos: self.buf_reader_position as nat,
            ctx: self.scanner_ctx@,
            tokens: tokens_view(self.tokens@),
            errors: errors_view(self.errors@),
        }
    }
}

/// What a function of the scanner returns for the outcome `expected` of its
/// part of the scan, and the state `after` in which it leaves the scanner:
/// `Ok` where the part was scanned, and where a read found no well-formed
/// character the fault that says so, with the context of that moment.
pub open spec fn agrees(
    returned: Result<(), MushError>,
    after: ScanState,
    expected: Scanned,
) -> bool {
    match returned {
        Ok(_) => expected == Ok::<ScanState, ScanState>(after),
        Err(error) => expected == Err::<ScanState, ScanState>(after) && error@ == (
        MushErrorView::InvalidEncoding { ctx: after.ctx }),
    }
}

/// The token of a character that is a token by itself.
pub fn punctuation_of(c: char) -> (token: Option<KeywordToken>)
    ensures
        token == punctuation(c),
{
    if c == '(' {
        Some(KeywordToken::LeftParen)
    } else if c == ')' {
        Some(KeywordToken::RightParen)
    } else if c == '{' {
        Some(KeywordToken::LeftCurl)
    } else if c == '}' {
        Some(KeywordToken::RightCurl)
    } else if c == ',' {
        Some(KeywordToken::Comma)
    } else if c == '.' {
        Some(KeywordToken::Dot)
    } else if c == '-' {
        Some(KeywordToken::Minus)
    } else if c == '+' {
        Some(KeywordToken::Plus)
    } else if c == ';' {
        Some(KeywordToken::SemiColon)
    } else if c == '*' {
        Some(KeywordToken::Star)
    } else {
        None
    }
}

impl Scanner {
    /// The bytes of the source.
    pub closed spec fn source(&self) -> Seq<u8> {
        self.source@
    }

    /// The cursor is inside the source or at its end, and the line number
    /// and the column can still grow by one for every byte left to read.
    pub closed spec fn wf(&self) -> bool {
        &&& self.buf_reader_position <= self.source.len()
        &&& self.scanner_ctx@.line_number + (self.source.len() - self.buf_reader_position)
            <= u64::MAX
        &&& self.scanner_ctx@.offset + (self.source.len() - self.buf_reader_position) <= u64::MAX
    }

    /// A scanner at the start of `source`, in the context `scanner_ctx`.
    pub fn new(source: Vec<u8>, scanner_ctx: MushContext) -> (scanner: Self)
        requires
            scanner_ctx@.line_number + source.len() <= u64::MAX,
            scanner_ctx@.offset + source.len() <= u64::MAX,
        ensures
            scanner.wf(),
            scanner.source() == source@,
            scanner@ == (ScanState {
                pos: 0,
                ctx: scanner_ctx@,
                tokens: Seq::empty(),
                errors: Seq::empty(),
            }),
    {
        let scanner = Self {
            source,
            buf_reader_position: 0,
            tokens: Vec::new(),
            errors: Vec::new(),
            scanner_ctx,
        };
        assert(tokens_view(scanner.tokens@) =~= Seq::empty());
        assert(errors_view(scanner.errors@) =~= Seq::empty());
        scanner
    }

    /// Scans the source from the cursor to its end. The scan succeeds
    /// exactly if the source is well-formed UTF-8 from the cursor on; the
    /// faults that it records do not stop it.
    pub fn scan_tokens(&mut self) -> (returned: Result<(), MushError>)
        requires
            old(self).wf(),
        ensures
            final(self).wf(),
            final(self).source() == old(self).source(),
            agrees(returned, final(self)@, run(old(self).source(), old(self)@)),
            returned is Ok <==> valid_utf8(old(self).source().skip(old(self)@.pos as int)),
    {
        proof {
            lemma_run_succeeds_on_utf8(self.source(), self@);
        }
        let mut is_done = self.is_done();
        while !is_done
            invariant
                self.wf(),
                self.source() == old(self).source(),
                is_done == (self@.pos >= self.source().len()),
                run(self.source(), self@) == run(old(self).source(), old(self)@),
                run(old(self).source(), old(self)@) is Ok <==> valid_utf8(
                    old(self).source().skip(old(self)@.pos as int),
                ),
            decreases self.source().len() - self@.pos,
        {
            let ghost before = self@;
            match self.scan_token() {
                Ok(_) => {},
                Err(error) => {
                    return Err(error);
                },
            }
            proof {
                lemma_step_forward(self.source(), before);
            }
            is_done = self.is_done();
        }
        let position = self.position();
        self.add_keyword_token(KeywordToken::EndOfFile, position);
        Ok(())
    }

    /// One step of the scan: reads the next character and what belongs to
    /// it.
    pub fn scan_token(&mut self) -> (returned: Result<(), MushError>)
        requires
            old(self).wf(),
        ensures
            final(self).wf(),
            final(self).source() == old(self).source(),
            agrees(returned, final(self)@, step(old(self).source(), old(self)@)),
    {
        let (c, next) = match self.advance(self.buf_reader_position) {
            Ok(read) => read,
            Err(error) => {
                return Err(error);
            },
        };
        self.consume(c, next);
        let at = self.position();
        if c == '\n' {
            self.add_keyword_token(KeywordToken::NewLine, at);
            self.scanner_ctx.increment_line_number();
            self.scanner_ctx.set_offset(0);
            self.scanner_ctx.set_line(String::new());
            return Ok(());
        }
        match punctuation_of(c) {
            Some(token_type) => {
                self.add_keyword_token(token_type, at);
                return Ok(());
            },
            None => {},
        }
        if c == '!' {
            self.match_bang(at)
        } else if c == '/' {
            self.match_slash(at)
        } else if c == '"' {
            self.match_string(at)
        } else if c >= '0' && c <= '9' {
            self.match_number(c, at)
        } else if c == ' ' || c == '\r' || c == '\t' {
            Ok(())
        } else {
            let ctx = self.scanner_ctx.clone();
            self.add_error(MushError::UnknownCharacter { unknown_character: c, ctx });
            Ok(())
        }
    }

    /// Reads the character that starts at byte `buffer_position`, without
    /// moving the cursor. Returns it with the offset of the byte after it.
    pub fn advance(&self, buffer_position: usize) -> (read: Result<(char, usize), MushError>)
        ensures
            match read {
                Ok((c, next)) => scalar_at(self.source(), buffer_position as nat) == Some(
                    (c, next as nat),
                ),
                Err(error) => scalar_at(self.source(), buffer_position as nat) is None && error@
                    == (MushErrorView::InvalidEncoding { ctx: self@.ctx }),
            },
    {
        match read_scalar(self.source.as_slice(), buffer_position) {
            Some(read) => Ok(read),
            None => Err(MushError::InvalidEncoding { ctx: self.scanner_ctx.clone() }),
        }
    }

    /// Moves the cursor over the character `c`, which was read at the
    /// cursor and ends before byte `next`.
    fn consume(&mut self, c: char, next: usize)
        requires
            old(self).wf(),
            scalar_at(old(self).source(), old(self)@.pos) == Some((c, next as nat)),
        ensures
            final(self).wf(),
            final(self).source() == old(self).source(),
            final(self)@ == old(self)@.consume(c, next as nat),
    {
        proof {
            lemma_scalar_at_advances(self.source(), self@.pos);
        }
        self.buf_reader_position = next;
        self.scanner_ctx.increment_offset();
        self.scanner_ctx.push_to_line(c);
    }

    /// The position of the last character read.
    fn position(&self) -> (position: SourcePosition)
        ensures
            position@ == self@.position(),
    {
        SourcePosition { line: self.scanner_ctx.line_number(), column: self.scanner_ctx.offset() }
    }

    /// The rest of the token that starts with the `!` just read.
    fn match_bang(&mut self, at: SourcePosition) -> (returned: Result<(), MushError>)
        requires
            old(self).wf(),
        ensures
            final(self).wf(),
            final(self).source() == old(self).source(),
            agrees(returned, final(self)@, after_bang(old(self).source(), old(self)@, at@)),
    {
        if self.is_done() {
            self.add_keyword_token(KeywordToken::Bang, at);
            return Ok(());
        }
        let (c, next) = match self.advance(self.buf_reader_position) {
            Ok(read) => read,
            Err(error) => {
                return Err(error);
            },
        };
        if c == '=' {
            self.consume(c, next);
            self.add_keyword_token(KeywordToken::BangEqual, at);
        } else {
            self.add_keyword_token(KeywordToken::Bang, at);
        }
        Ok(())
    }

    /// The rest of the token or comment that starts with the `/` just read.
    fn match_slash(&mut self, at: SourcePosition) -> (returned: Result<(), MushError>)
        requires
            old(self).wf(),
        ensures
            final(self).wf(),
            final(self).source() == old(self).source(),
            agrees(returned, final(self)@, after_slash(old(self).source(), old(self)@, at@)),
    {
        if self.is_done() {
            self.add_keyword_token(KeywordToken::Slash, at);
            return Ok(());
        }
        let (c, next) = match self.advance(self.buf_reader_position) {
            Ok(read) => read,
            Err(error) => {
                return Err(error);
            },
        };
        if c != '/' {
            self.add_keyword_token(KeywordToken::Slash, at);
            return Ok(());
        }
        self.consume(c, next);
        loop
            invariant
                self.wf(),
                self.source() == old(self).source(),
                skip_comment(self.source(), self@) == after_slash(
                    old(self).source(),
                    old(self)@,
                    at@,
                ),
            decreases self.source().len() - self@.pos,
        {
            if self.is_done() {
                return Ok(());
            }
            let (c, next) = match self.advance(self.buf_reader_position) {
                Ok(read) => read,
                Err(error) => {
                    return Err(error);
                },
            };
            if c == '\n' {
                return Ok(());
            }
            proof {
                lemma_scalar_at_advances(self.source(), self@.pos);
            }
            self.consume(c, next);
        }
    }

    /// The rest of the string literal whose opening quote was just read.
    fn match_string(&mut self, at: SourcePosition) -> (returned: Result<(), MushError>)
        requires
            old(self).wf(),
        ensures
            final(self).wf(),
            final(self).source() == old(self).source(),
            agrees(
                returned,
                final(self)@,
                string_from(old(self).source(), old(self)@, Seq::empty(), at@),
            ),
    {
        let mut string = String::new();
        loop
            invariant
                self.wf(),
                self.source() == old(self).source(),
                string_from(self.source(), self@, string@, at@) == string_from(
                    old(self).source(),
                    old(self)@,
                    Seq::empty(),
                    at@,
                ),
            decreases self.source().len() - self@.pos,
        {
            if self.is_done() {
                let ctx = self.scanner_ctx.clone();
                self.add_error(MushError::IncompleteString { partial: string, ctx });
                return Ok(());
            }
            let (c, next) = match self.advance(self.buf_reader_position) {
                Ok(read) => read,
                Err(error) => {
                    return Err(error);
                },
            };
            if c == '"' {
                self.consume(c, next);
                self.add_lexeme_token(LexemeToken::String(string), at);
                return Ok(());
            }
            if c == '\n' {
                let ctx = self.scanner_ctx.clone();
                self.add_error(MushError::IncompleteString { partial: string, ctx });
                return Ok(());
            }
            proof {
                lemma_scalar_at_advances(self.source(), self@.pos);
            }
            self.consume(c, next);
            string.push(c);
        }
    }

    /// The rest of the number literal whose first digit, `first`, was just
    /// read.
    fn match_number(&mut self, first: char, at: SourcePosition) -> (returned: Result<
        (),
        MushError,
    >)
        requires
            old(self).wf(),
        ensures
            final(self).wf(),
            final(self).source() == old(self).source(),
            agrees(
                returned,
                final(self)@,
                number_from(old(self).source(), old(self)@, seq![first], false, at@),
            ),
    {
        let mut number = String::new();
        number.push(first);
        assert(number@ =~= seq![first]);
        let mut is_float = false;
        loop
            invariant
                self.wf(),
                self.source() == old(self).source(),
                number_from(self.source(), self@, number@, is_float, at@) == number_from(
                    old(self).source(),
                    old(self)@,
                    seq![first],
                    false,
                    at@,
                ),
            decreases self.source().len() - self@.pos,
        {
            if self.is_done() {
                self.add_number_token(number, is_float, at);
                return Ok(());
            }
            let (c, next) = match self.advance(self.buf_reader_position) {
                Ok(read) => read,
                Err(error) => {
                    return Err(error);
                },
            };
            if c >= '0' && c <= '9' {
            } else if c == '.' && !is_float {
                is_float = true;
            } else {
                self.add_number_token(number, is_float, at);
                return Ok(());
            }
            proof {
                lemma_scalar_at_advances(self.source(), self@.pos);
            }
            self.consume(c, next);
            number.push(c);
        }
    }

    /// Adds the token of a number literal with the text `number`.
    fn add_number_token(&mut self, number: String, is_float: bool, at: SourcePosition)
        requires
            old(self).wf(),
        ensures
            final(self).wf(),
            final(self).source() == old(self).source(),
            final(self)@ == old(self)@.with_lexeme(number_lexeme(number@, is_float), at@),
    {
        if is_float {
            self.add_lexeme_token(LexemeToken::Float(number), at);
        } else {
            self.add_lexeme_token(LexemeToken::Integer(number), at);
        }
    }

    /// Whether the source is exhausted. Moves nothing.
    pub fn is_done(&self) -> (done: bool)
        ensures
            done == (self@.pos >= self.source().len()),
    {
        self.buf_reader_position >= self.source.len()
    }

    fn add_error(&mut self, mush_error: MushError)
        requires
            old(self).wf(),
        ensures
            final(self).wf(),
            final(self).source() == old(self).source(),
            final(self)@ == old(self)@.with_error(mush_error@),
    {
        self.errors.push(mush_error);
        assert(errors_view(self.errors@) =~= errors_view(old(self).errors@).push(mush_error@));
    }

    fn add_keyword_token(&mut self, token_type: KeywordToken, position: SourcePosition)
        requires
            old(self).wf(),
        ensures
            final(self).wf(),
            final(self).source() == old(self).source(),
            final(self)@ == old(self)@.with_keyword(token_type, position@),
    {
        let token = Token::KeywordToken { token_type, position };
        self.tokens.push(token);
        assert(tokens_view(self.tokens@) =~= tokens_view(old(self).tokens@).push(token@));
    }

    fn add_lexeme_token(&mut self, token_type: LexemeToken, position: SourcePosition)
        requires
            old(self).wf(),
        ensures
            final(self).wf(),
            final(self).source() == old(self).source(),
            final(self)@ == old(self)@.with_lexeme(token_type@, position@),
    {
        let token = Token::LexemeToken { token_type, position };
        self.tokens.push(token);
        assert(tokens_view(self.tokens@) =~= tokens_view(old(self).tokens@).push(token@));
    }

    /// Whether the scan has recorded a fault.
    pub fn has_errors(&self) -> (any: bool)
        ensures
            any == (self@.errors.len() > 0),
    {
        !self.errors.is_empty()
    }

    /// The faults recorded so far, in the order in which they were found.
    pub fn errors(&self) -> (errors: &Vec<MushError>)
        ensures
            errors_view(errors@) == self@.errors,
    {
        &self.errors
    }

    /// The tokens found so far, in the order in which they were found.
    pub fn tokens(&self) -> (tokens: &[Token])
        ensures
            tokens_view(tokens@) == self@.tokens,
    {
        self.tokens.as_slice()
    }
}

} // verus!

//! What holds of every scan.

use crate::engine::diagnostics::error::MushErrorView;
use crate::engine::lexer::cursor::scalar_at;
use crate::engine::lexer::model::{
    after_bang, after_slash, is_blank, is_digit, lemma_step_forward, number_from, number_lexeme,
    punctuation, run, skip_comment, step, string_from, ScanState, Scanned,
};
use crate::engine::lexer::token::{KeywordToken, LexemeView, Position, TokenView};
use vstd::prelude::*;
use vstd::utf8::*;

verus! {

/// A byte below 128 is the encoding of the character with that number.
pub proof fn lemma_ascii_scalar(src: Seq<u8>, at: nat)
    requires
        at < src.len(),
        src[at as int] < 128,
    ensures
        scalar_at(src, at) == Some((src[at as int] as char, at + 1)),
{
    let rest = src.skip(at as int);
    let byte = src[at as int];
    assert(rest[0] == byte);
    assert(byte & 0x7f == byte) by (bit_vector)
        requires
            byte < 128,
    ;
}

/// The token of a character that is a token by itself is written as that
/// character.
pub proof fn lemma_punctuation_lexeme(c: char)
    requires
        punctuation(c) is Some,
    ensures
        punctuation(c)->0.lexeme() == seq![c],
{
    reveal_strlit("(");
    reveal_strlit(")");
    reveal_strlit("{");
    reveal_strlit("}");
    reveal_strlit(",");
    reveal_strlit(".");
    reveal_strlit("-");
    reveal_strlit("+");
    reveal_strlit(";");
    reveal_strlit("*");
    assert(punctuation(c)->0.lexeme() =~= seq![c]);
}

/// A source that holds one character that is a token by itself, and
/// nothing else, gives that token and the end-of-file token, both at the
/// position of the character, and no fault.
pub proof fn lemma_single_punctuation(c: char, start: ScanState)
    requires
        punctuation(c) is Some,
        start.pos == 0,
    ensures
        run(seq![c as u8], start) == Ok::<ScanState, ScanState>(
            start.consume(c, 1).with_keyword(
                punctuation(c)->0,
                start.consume(c, 1).position(),
            ).with_keyword(KeywordToken::EndOfFile, start.consume(c, 1).position()),
        ),
        start.tokens.len() == 0 ==> run(seq![c as u8], start)->Ok_0.tokens.len() == 2,
        run(seq![c as u8], start)->Ok_0.errors == start.errors,
{
    let src = seq![c as u8];
    assert(src[0] == c as u8);
    lemma_ascii_scalar(src, 0);
    let read = start.consume(c, 1);
    let after = read.with_keyword(punctuation(c)->0, read.position());
    assert(step(src, start) == Ok::<ScanState, ScanState>(after));
    assert(run(src, after) == Ok::<ScanState, ScanState>(
        after.with_keyword(KeywordToken::EndOfFile, after.position()),
    ));
}

/// The text of a number literal: it starts with a digit and holds digits
/// and at most one `.`, and it holds a `.` exactly if the literal is a
/// float.
pub open spec fn number_text(text: Seq<char>, is_float: bool) -> bool {
    &&& text.len() > 0
    &&& is_digit(text[0])
    &&& forall|i: int| 0 <= i < text.len() ==> is_digit(#[trigger] text[i]) || text[i] == '.'
    &&& forall|i: int, j: int|
        0 <= i < j < text.len() ==> !(#[trigger] text[i] == '.' && #[trigger] text[j] == '.')
    &&& is_float <==> text.contains('.')
}

/// A number literal adds one token and nothing else. The token stands at
/// the position of the first digit; its text is a [`number_text`] that
/// begins with what was read before and goes on with every character
/// consumed since; it is a float exactly if the text holds a `.`.
pub proof fn lemma_number_token(
    src: Seq<u8>,
    s: ScanState,
    text: Seq<char>,
    is_float: bool,
    at: Position,
)
    requires
        number_text(text, is_float),
    ensures
        number_from(src, s, text, is_float, at) matches Ok(after) ==> {
            &&& after.errors == s.errors
            &&& after.tokens.len() == s.tokens.len() + 1
            &&& after.tokens.drop_last() == s.tokens
            &&& after.tokens.last() matches TokenView::LexemeToken { token_type, position }
            &&& position == at
            &&& token_type is Integer || token_type is Float
            &&& number_text(token_type.text(), token_type is Float)
            &&& text.is_prefix_of(token_type.text())
            &&& after.ctx.line == s.ctx.line + token_type.text().skip(text.len() as int)
        },
    decreases src.len() - s.pos,
{
    let done = s.with_lexeme(number_lexeme(text, is_float), at);
    assert(done.tokens.drop_last() =~= s.tokens);
    assert(text.is_prefix_of(text));
    assert(s.ctx.line + text.skip(text.len() as int) =~= s.ctx.line);
    if s.pos < src.len() {
        match scalar_at(src, s.pos) {
            None => {},
            Some((c, next)) => {
                let longer = text.push(c);
                let read = s.consume(c, next);
                if is_digit(c) || (c == '.' && !is_float) {
                    let float = is_float || c == '.';
                    assert(number_text(longer, float)) by {
                        assert(longer[0] == text[0]);
                        assert forall|i: int| 0 <= i < longer.len() implies is_digit(
                            #[trigger] longer[i],
                        ) || longer[i] == '.' by {
                            if i < text.len() {
                                assert(longer[i] == text[i]);
                            }
                        }
                        assert forall|i: int, j: int| 0 <= i < j < longer.len() implies !(
                        #[trigger] longer[i] == '.' && #[trigger] longer[j] == '.') by {
                            assert(longer[i] == text[i]);
                            if j < text.len() {
                                assert(longer[j] == text[j]);
                            } else if c == '.' {
                                assert(!text.contains('.'));
                            }
                        }
                        if float {
                            if is_float {
                                let i = choose|i: int| 0 <= i < text.len() && text[i] == '.';
                                assert(longer[i] == '.');
                            } else {
                                assert(longer[text.len() as int] == '.');
                            }
                        } else {
                            if longer.contains('.') {
                                let i = choose|i: int| 0 <= i < longer.len() && longer[i] == '.';
                                if i < text.len() {
                                    assert(text[i] == '.');
                                }
                            }
                        }
                    }
                    lemma_number_token(src, read, longer, float, at);
                    match number_from(src, read, longer, float, at) {
                        Ok(after) => {
                            let number = after.tokens.last()->LexemeToken_token_type.text();
                            assert(longer =~= number.subrange(0, longer.len() as int));
                            assert(text =~= number.subrange(0, text.len() as int));
                            assert(number[text.len() as int] == c) by {
                                assert(longer[text.len() as int] == c);
                                assert(number.subrange(0, longer.len() as int)[text.len() as int]
                                    == number[text.len() as int]);
                            }
                            assert(s.ctx.line.push(c) + number.skip(longer.len() as int)
                                =~= s.ctx.line + number.skip(text.len() as int));
                        },
                        Err(_) => {},
                    }
                }
            },
        }
    }
}

/// A string literal adds either one token or one fault, and nothing else.
/// The token stands at the position of the opening quote; its text begins
/// with what was read before and goes on with every character consumed
/// since but the closing quote, and that part holds no quote and no
/// newline. The fault holds the same text, as far as it was read, and the
/// context in which the scan is left.
pub proof fn lemma_string_token(src: Seq<u8>, s: ScanState, text: Seq<char>, at: Position)
    ensures
        string_from(src, s, text, at) matches Ok(after) ==> {
            ||| {
                &&& after.errors == s.errors
                &&& after.tokens.len() == s.tokens.len() + 1
                &&& after.tokens.drop_last() == s.tokens
                &&& after.tokens.last() matches TokenView::LexemeToken { token_type, position }
                &&& position == at
                &&& token_type is String
                &&& text.is_prefix_of(token_type.text())
                &&& after.ctx.line == s.ctx.line + token_type.text().skip(text.len() as int)
                    + seq!['"']
                &&& forall|i: int|
                    text.len() <= i < token_type.text().len() ==> #[trigger] token_type.text()[i]
                        != '"' && token_type.text()[i] != '\n'
            }
            ||| {
                &&& after.tokens == s.tokens
                &&& after.errors.len() == s.errors.len() + 1
                &&& after.errors.drop_last() == s.errors
                &&& after.errors.last() matches MushErrorView::IncompleteString { partial, ctx }
                &&& ctx == after.ctx
                &&& text.is_prefix_of(partial)
                &&& after.ctx.line == s.ctx.line + partial.skip(text.len() as int)
                &&& forall|i: int|
                    text.len() <= i < partial.len() ==> #[trigger] partial[i] != '"' && partial[i]
                        != '\n'
            }
        },
    decreases src.len() - s.pos,
{
    let cut = s.with_error(MushErrorView::IncompleteString { partial: text, ctx: s.ctx });
    assert(cut.errors.drop_last() =~= s.errors);
    assert(text.is_prefix_of(text));
    assert(s.ctx.line + text.skip(text.len() as int) =~= s.ctx.line);
    if s.pos < src.len() {
        match scalar_at(src, s.pos) {
            None => {},
            Some((c, next)) => {
                let read = s.consume(c, next);
                if c == '"' {
                    let closed = read.with_lexeme(LexemeView::String(text), at);
                    assert(closed.tokens.drop_last() =~= s.tokens);
                    assert(closed.ctx.line =~= s.ctx.line + text.skip(text.len() as int)
                        + seq!['"']);
                } else if c != '\n' {
                    let longer = text.push(c);
                    lemma_string_token(src, read, longer, at);
                    match string_from(src, read, longer, at) {
                        Ok(after) => {
                            if after.errors == s.errors {
                                let found = after.tokens.last()->LexemeToken_token_type.text();
                                assert(longer =~= found.subrange(0, longer.len() as int));
                                assert(text =~= found.subrange(0, text.len() as int));
                                assert(found[text.len() as int] == c) by {
                                assert(longer[text.len() as int] == c);
                                assert(found.subrange(0, longer.len() as int)[text.len() as int]
                                    == found[text.len() as int]);
                            }
                                assert(s.ctx.line.push(c) + found.skip(longer.len() as int)
                                    + seq!['"'] =~= s.ctx.line + found.skip(text.len() as int)
                                    + seq!['"']);
                            } else {
                                let partial = after.errors.last()->IncompleteString_partial;
                                assert(longer =~= partial.subrange(0, longer.len() as int));
                                assert(text =~= partial.subrange(0, text.len() as int));
                                assert(partial[text.len() as int] == c) by {
                                assert(longer[text.len() as int] == c);
                                assert(partial.subrange(0, longer.len() as int)[text.len() as int]
                                    == partial[text.len() as int]);
                            }
                                assert(s.ctx.line.push(c) + partial.skip(longer.len() as int)
                                    =~= s.ctx.line + partial.skip(text.len() as int));
                            }
                        },
                        Err(_) => {},
                    }
                }
            },
        }
    }
}

/// Reading a character neither mends nor spoils the encoding of what
/// follows it: the source is well-formed from the character on exactly if
/// it is well-formed from the byte after it.
pub proof fn lemma_scalar_keeps_validity(src: Seq<u8>, at: nat)
    requires
        scalar_at(src, at) is Some,
    ensures
        valid_utf8(src.skip(at as int)) <==> valid_utf8(
            src.skip(scalar_at(src, at).unwrap().1 as int),
        ),
{
    let rest = src.skip(at as int);
    let next = scalar_at(src, at).unwrap().1;
    assert(pop_first_scalar(rest) =~= src.skip(next as int));
}

/// Where no character can be read inside the source, the source is not
/// well-formed from there on.
pub proof fn lemma_no_scalar_is_invalid(src: Seq<u8>, at: nat)
    requires
        at < src.len(),
        scalar_at(src, at) is None,
    ensures
        !valid_utf8(src.skip(at as int)),
{
}

/// How many of the tokens are newline tokens.
pub open spec fn newlines(tokens: Seq<TokenView>) -> nat
    decreases tokens.len(),
{
    if tokens.len() == 0 {
        0
    } else if tokens.last() is KeywordToken && tokens.last()->KeywordToken_token_type
        == KeywordToken::NewLine {
        newlines(tokens.drop_last()) + 1
    } else {
        newlines(tokens.drop_last())
    }
}

/// What holds between the state `before` a part of a scan and the state
/// `after` it: the cursor has not moved back nor past the end, the file is
/// the same, tokens and faults were added at the end and none was taken
/// away or changed, the line number has gone up by one for every newline
/// token that was added, the column is still the length of the text of the
/// line if it was so before, and the source is well-formed from the one
/// cursor on exactly if it is from the other.
pub open spec fn follows(src: Seq<u8>, before: ScanState, after: ScanState) -> bool {
    &&& before.pos <= after.pos <= src.len()
    &&& after.ctx.file == before.ctx.file
    &&& before.tokens.is_prefix_of(after.tokens)
    &&& before.errors.is_prefix_of(after.errors)
    &&& after.ctx.line_number + newlines(before.tokens) == before.ctx.line_number + newlines(
        after.tokens,
    )
    &&& (before.ctx.offset == before.ctx.line.len() ==> after.ctx.offset == after.ctx.line.len())
    &&& (valid_utf8(src.skip(before.pos as int)) <==> valid_utf8(src.skip(after.pos as int)))
}

/// What holds of the outcome of a part of a scan that began in `before`:
/// the state it ends in follows `before`, and it ends in `Err` only where
/// no character can be read at the cursor.
pub open spec fn sound(src: Seq<u8>, before: ScanState, outcome: Scanned) -> bool {
    match outcome {
        Ok(after) => follows(src, before, after),
        Err(after) => follows(src, before, after) && after.pos < src.len() && scalar_at(
            src,
            after.pos,
        ) is None,
    }
}

/// [`follows`] holds of a state and itself, and goes on through a state
/// in between.
pub proof fn lemma_follows_chain(src: Seq<u8>, a: ScanState, b: ScanState, c: ScanState)
    requires
        follows(src, a, b),
        follows(src, b, c),
    ensures
        follows(src, a, c),
{
    assert(a.tokens =~= c.tokens.subrange(0, a.tokens.len() as int)) by {
        assert(a.tokens =~= b.tokens.subrange(0, a.tokens.len() as int));
        assert(b.tokens =~= c.tokens.subrange(0, b.tokens.len() as int));
    }
    assert(a.errors =~= c.errors.subrange(0, a.errors.len() as int)) by {
        assert(a.errors =~= b.errors.subrange(0, a.errors.len() as int));
        assert(b.errors =~= c.errors.subrange(0, b.errors.len() as int));
    }
}

/// [`sound`] goes on through a state in between.
pub proof fn lemma_sound_chain(
    src: Seq<u8>,
    a: ScanState,
    b: ScanState,
    outcome: Scanned,
)
    requires
        follows(src, a, b),
        sound(src, b, outcome),
    ensures
        sound(src, a, outcome),
{
    match outcome {
        Ok(c) => lemma_follows_chain(src, a, b, c),
        Err(c) => lemma_follows_chain(src, a, b, c),
    }
}

/// The state after a character was consumed follows the state before.
pub proof fn lemma_consume_follows(src: Seq<u8>, s: ScanState)
    requires
        scalar_at(src, s.pos) is Some,
    ensures
        follows(
            src,
            s,
            s.consume(scalar_at(src, s.pos).unwrap().0, scalar_at(src, s.pos).unwrap().1),
        ),
{
    lemma_scalar_keeps_validity(src, s.pos);
    assert(s.tokens.is_prefix_of(s.tokens));
    assert(s.errors.is_prefix_of(s.errors));
}

/// The state after a token other than a newline token, or a fault, was
/// added follows the state before; so does the state at the start of the
/// next line after a newline token was added.
pub proof fn lemma_additions_follow(src: Seq<u8>, s: ScanState)
    requires
        s.pos <= src.len(),
    ensures
        follows(src, s, s),
        forall|at: Position| #[trigger]
            follows(src, s, s.with_keyword(KeywordToken::NewLine, at).break_line()),
        forall|token_type: KeywordToken, at: Position|
            token_type != KeywordToken::NewLine ==> #[trigger] follows(
                src,
                s,
                s.with_keyword(token_type, at),
            ),
        forall|token_type: LexemeView, at: Position| #[trigger]
            follows(src, s, s.with_lexeme(token_type, at)),
        forall|error: MushErrorView| #[trigger]
            follows(src, s, s.with_error(error)),
{
    assert(s.tokens.is_prefix_of(s.tokens));
    assert(s.errors.is_prefix_of(s.errors));
    assert forall|at: Position| #[trigger]
        follows(src, s, s.with_keyword(KeywordToken::NewLine, at).break_line()) by {
        let after = s.with_keyword(KeywordToken::NewLine, at).break_line();
        assert(s.tokens.is_prefix_of(after.tokens));
        assert(after.tokens.drop_last() =~= s.tokens);
    }
    assert forall|token_type: KeywordToken, at: Position|
        token_type != KeywordToken::NewLine implies #[trigger] follows(
        src,
        s,
        s.with_keyword(token_type, at),
    ) by {
        let after = s.with_keyword(token_type, at);
        assert(s.tokens.is_prefix_of(after.tokens));
        assert(after.tokens.drop_last() =~= s.tokens);
    }
    assert forall|token_type: LexemeView, at: Position| #[trigger]
        follows(src, s, s.with_lexeme(token_type, at)) by {
        let after = s.with_lexeme(token_type, at);
        assert(s.tokens.is_prefix_of(after.tokens));
        assert(after.tokens.drop_last() =~= s.tokens);
    }
    assert forall|error: MushErrorView| #[trigger]
        follows(src, s, s.with_error(error)) by {
        assert(s.errors.is_prefix_of(s.with_error(error).errors));
    }
}

/// A comment is sound.
pub proof fn lemma_skip_comment_sound(src: Seq<u8>, s: ScanState)
    requires
        s.pos <= src.len(),
    ensures
        sound(src, s, skip_comment(src, s)),
    decreases src.len() - s.pos,
{
    lemma_additions_follow(src, s);
    if s.pos < src.len() {
        match scalar_at(src, s.pos) {
            None => {},
            Some((c, next)) => {
                if c != '\n' {
                    lemma_consume_follows(src, s);
                    lemma_skip_comment_sound(src, s.consume(c, next));
                    lemma_sound_chain(src, s, s.consume(c, next), skip_comment(src, s));
                }
            },
        }
    }
}

/// A string literal is sound.
pub proof fn lemma_string_sound(src: Seq<u8>, s: ScanState, text: Seq<char>, at: Position)
    requires
        s.pos <= src.len(),
    ensures
        sound(src, s, string_from(src, s, text, at)),
    decreases src.len() - s.pos,
{
    lemma_additions_follow(src, s);
    if s.pos < src.len() {
        match scalar_at(src, s.pos) {
            None => {},
            Some((c, next)) => {
                let read = s.consume(c, next);
                lemma_consume_follows(src, s);
                lemma_additions_follow(src, read);
                if c == '"' {
                    lemma_follows_chain(
                        src,
                        s,
                        read,
                        read.with_lexeme(LexemeView::String(text), at),
                    );
                } else if c != '\n' {
                    lemma_string_sound(src, read, text.push(c), at);
                    lemma_sound_chain(src, s, read, string_from(src, s, text, at));
                }
            },
        }
    }
}

/// A number literal is sound.
pub proof fn lemma_number_sound(
    src: Seq<u8>,
    s: ScanState,
    text: Seq<char>,
    is_float: bool,
    at: Position,
)
    requires
        s.pos <= src.len(),
    ensures
        sound(src, s, number_from(src, s, text, is_float, at)),
    decreases src.len() - s.pos,
{
    lemma_additions_follow(src, s);
    if s.pos < src.len() {
        match scalar_at(src, s.pos) {
            None => {},
            Some((c, next)) => {
                let read = s.consume(c, next);
                lemma_consume_follows(src, s);
                if is_digit(c) {
                    lemma_number_sound(src, read, text.push(c), is_float, at);
                    lemma_sound_chain(src, s, read, number_from(src, s, text, is_float, at));
                } else if c == '.' && !is_float {
                    lemma_number_sound(src, read, text.push(c), true, at);
                    lemma_sound_chain(src, s, read, number_from(src, s, text, is_float, at));
                }
            },
        }
    }
}

/// A step is sound.
pub proof fn lemma_step_sound(src: Seq<u8>, s: ScanState)
    requires
        s.pos < src.len(),
    ensures
        sound(src, s, step(src, s)),
{
    lemma_additions_follow(src, s);
    match scalar_at(src, s.pos) {
        None => {},
        Some((c, next)) => {
            let read = s.consume(c, next);
            let at = read.position();
            lemma_consume_follows(src, s);
            lemma_additions_follow(src, read);
            if c == '\n' {
                let marked = read.with_keyword(KeywordToken::NewLine, at);
                assert(marked.tokens.drop_last() =~= s.tokens);
                assert(s.tokens.is_prefix_of(marked.tokens));
            } else if punctuation(c) is Some {
                lemma_follows_chain(src, s, read, read.with_keyword(punctuation(c)->0, at));
            } else if c == '!' {
                if read.pos < src.len() {
                    match scalar_at(src, read.pos) {
                        None => {},
                        Some((c2, next2)) => {
                            if c2 == '=' {
                                let both = read.consume(c2, next2);
                                lemma_consume_follows(src, read);
                                lemma_additions_follow(src, both);
                                lemma_follows_chain(
                                    src,
                                    read,
                                    both,
                                    both.with_keyword(KeywordToken::BangEqual, at),
                                );
                            }
                        },
                    }
                }
                lemma_sound_chain(src, s, read, after_bang(src, read, at));
            } else if c == '/' {
                if read.pos < src.len() {
                    match scalar_at(src, read.pos) {
                        None => {},
                        Some((c2, next2)) => {
                            if c2 == '/' {
                                let both = read.consume(c2, next2);
                                lemma_consume_follows(src, read);
                                lemma_skip_comment_sound(src, both);
                                lemma_sound_chain(src, read, both, skip_comment(src, both));
                            }
                        },
                    }
                }
                lemma_sound_chain(src, s, read, after_slash(src, read, at));
            } else if c == '"' {
                lemma_string_sound(src, read, Seq::empty(), at);
                lemma_sound_chain(src, s, read, string_from(src, read, Seq::empty(), at));
            } else if is_digit(c) {
                lemma_number_sound(src, read, seq![c], false, at);
                lemma_sound_chain(src, s, read, number_from(src, read, seq![c], false, at));
            } else if is_blank(c) {
            } else {
                lemma_follows_chain(
                    src,
                    s,
                    read,
                    read.with_error(
                        MushErrorView::UnknownCharacter {
                            unknown_character: c,
                            ctx: read.ctx,
                        },
                    ),
                );
            }
        },
    }
}

/// A whole scan is sound. Where it succeeds it has read the source to its
/// end, and the last token is the end-of-file token, at the position of the
/// last character read.
pub proof fn lemma_run_sound(src: Seq<u8>, s: ScanState)
    requires
        s.pos <= src.len(),
    ensures
        sound(src, s, run(src, s)),
        run(src, s) matches Ok(after) ==> after.pos == src.len() && after.tokens.len() > 0
            && after.tokens.last() == (TokenView::KeywordToken {
            token_type: KeywordToken::EndOfFile,
            position: after.position(),
        }),
    decreases src.len() - s.pos,
{
    lemma_additions_follow(src, s);
    if s.pos < src.len() {
        lemma_step_sound(src, s);
        match step(src, s) {
            Ok(after) => {
                lemma_step_forward(src, s);
                lemma_run_sound(src, after);
                lemma_sound_chain(src, s, after, run(src, after));
            },
            Err(after) => {},
        }
    }
}

/// A scan succeeds exactly if the source is well-formed UTF-8 from the
/// cursor on. No fault that it records stops it: not an unknown character,
/// not a string that is not closed.
pub proof fn lemma_run_succeeds_on_utf8(src: Seq<u8>, s: ScanState)
    requires
        s.pos <= src.len(),
    ensures
        run(src, s) is Ok <==> valid_utf8(src.skip(s.pos as int)),
{
    lemma_run_sound(src, s);
    match run(src, s) {
        Ok(after) => {
            assert(src.skip(after.pos as int) =~= Seq::<u8>::empty());
        },
        Err(after) => {
            lemma_no_scalar_is_invalid(src, after.pos);
        },
    }
}

/// What holds of the tokens between the state `before` a part of a scan
/// that reads one token and the state `after` it: the tokens that were
/// there are there still, every token that was added stands at `at`, and
/// the line number has not gone down.
pub open spec fn added_at(before: ScanState, after: ScanState, at: Position) -> bool {
    &&& before.tokens.len() <= after.tokens.len()
    &&& forall|i: int| 0 <= i < before.tokens.len() ==> after.tokens[i] == before.tokens[i]
    &&& forall|i: int|
        before.tokens.len() <= i < after.tokens.len() ==> (#[trigger] after.tokens[i]).position()
            == at
    &&& before.ctx.line_number <= after.ctx.line_number
}

/// Whatever the outcome of a part of a scan that reads one token, the
/// tokens it added stand at `at`.
pub open spec fn adds_at(before: ScanState, outcome: Scanned, at: Position) -> bool {
    match outcome {
        Ok(after) => added_at(before, after, at),
        Err(after) => added_at(before, after, at),
    }
}

/// [`adds_at`] goes on through a state in between.
pub proof fn lemma_adds_at_chain(a: ScanState, b: ScanState, outcome: Scanned, at: Position)
    requires
        added_at(a, b, at),
        adds_at(b, outcome, at),
    ensures
        adds_at(a, outcome, at),
{
}

/// A comment adds no token.
pub proof fn lemma_skip_comment_adds(src: Seq<u8>, s: ScanState, at: Position)
    ensures
        adds_at(s, skip_comment(src, s), at),
    decreases src.len() - s.pos,
{
    if s.pos < src.len() {
        match scalar_at(src, s.pos) {
            None => {},
            Some((c, next)) => {
                if c != '\n' {
                    lemma_skip_comment_adds(src, s.consume(c, next), at);
                    lemma_adds_at_chain(s, s.consume(c, next), skip_comment(src, s), at);
                }
            },
        }
    }
}

/// A string literal adds its token, if any, at the position of its
/// opening quote.
pub proof fn lemma_string_adds(src: Seq<u8>, s: ScanState, text: Seq<char>, at: Position)
    ensures
        adds_at(s, string_from(src, s, text, at), at),
    decreases src.len() - s.pos,
{
    if s.pos < src.len() {
        match scalar_at(src, s.pos) {
            None => {},
            Some((c, next)) => {
                if c != '"' && c != '\n' {
                    let read = s.consume(c, next);
                    lemma_string_adds(src, read, text.push(c), at);
                    lemma_adds_at_chain(s, read, string_from(src, s, text, at), at);
                }
            },
        }
    }
}

/// A number literal adds its token at the position of its first digit.
pub proof fn lemma_number_adds(
    src: Seq<u8>,
    s: ScanState,
    text: Seq<char>,
    is_float: bool,
    at: Position,
)
    ensures
        adds_at(s, number_from(src, s, text, is_float, at), at),
    decreases src.len() - s.pos,
{
    if s.pos < src.len() {
        match scalar_at(src, s.pos) {
            None => {},
            Some((c, next)) => {
                let read = s.consume(c, next);
                if is_digit(c) {
                    lemma_number_adds(src, read, text.push(c), is_float, at);
                    lemma_adds_at_chain(s, read, number_from(src, s, text, is_float, at), at);
                } else if c == '.' && !is_float {
                    lemma_number_adds(src, read, text.push(c), true, at);
                    lemma_adds_at_chain(s, read, number_from(src, s, text, is_float, at), at);
                }
            },
        }
    }
}

/// The tokens that a step adds stand on the line on which the step
/// began, at the column of the first character that it read.
pub proof fn lemma_step_adds(src: Seq<u8>, s: ScanState)
    ensures
        adds_at(
            s,
            step(src, s),
            Position { line: s.ctx.line_number, column: s.ctx.offset + 1 },
        ),
{
    match scalar_at(src, s.pos) {
        None => {},
        Some((c, next)) => {
            let read = s.consume(c, next);
            let at = read.position();
            if c == '\n' || punctuation(c) is Some {
            } else if c == '/' {
                if read.pos < src.len() {
                    match scalar_at(src, read.pos) {
                        None => {},
                        Some((c2, next2)) => {
                            if c2 == '/' {
                                lemma_skip_comment_adds(src, read.consume(c2, next2), at);
                            }
                        },
                    }
                }
            } else if c == '"' {
                lemma_string_adds(src, read, Seq::empty(), at);
            } else if is_digit(c) {
                lemma_number_adds(src, read, seq![c], false, at);
            }
        },
    }
}

/// Every token stands on a line from `first` to `last`.
pub open spec fn lines_within(tokens: Seq<TokenView>, first: nat, last: nat) -> bool {
    forall|i: int|
        0 <= i < tokens.len() ==> first <= (#[trigger] tokens[i]).position().line <= last
}

/// The tokens of a scan stand on lines from the line on which the scan
/// began to the line on which it ended; so no token of a scan that began on
/// line 1 stands on a line 0.
pub proof fn lemma_run_lines(src: Seq<u8>, s: ScanState, first: nat)
    requires
        lines_within(s.tokens, first, s.ctx.line_number),
        first <= s.ctx.line_number,
    ensures
        match run(src, s) {
            Ok(after) => lines_within(after.tokens, first, after.ctx.line_number),
            Err(after) => lines_within(after.tokens, first, after.ctx.line_number),
        },
    decreases src.len() - s.pos,
{
    if s.pos < src.len() {
        lemma_step_adds(src, s);
        match step(src, s) {
            Ok(after) => {
                lemma_step_forward(src, s);
                lemma_run_lines(src, after, first);
            },
            Err(after) => {},
        }
    }
}

} // verus!

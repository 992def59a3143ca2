use mush::engine::diagnostics::error::MushError;
use mush::engine::lexer::cursor::read_scalar;
use mush::engine::lexer::scanner::punctuation_of;
use mush::engine::lexer::{
    KeywordToken, LexemeToken, MushContext, Scanner, SourcePosition, Token,
};

fn scan(source: &str) -> Scanner {
    scan_bytes(source.as_bytes().to_vec()).expect("the source is well-formed")
}

fn scan_bytes(source: Vec<u8>) -> Result<Scanner, MushError> {
    let ctx = MushContext::new("script.mush".to_string(), String::new(), 1, 0);
    let mut scanner = Scanner::new(source, ctx);
    match scanner.scan_tokens() {
        Ok(()) => Ok(scanner),
        Err(error) => Err(error),
    }
}

fn keyword(token_type: KeywordToken, line: u64, column: u64) -> Token {
    Token::KeywordToken { token_type, position: SourcePosition { line, column } }
}

fn lexeme(token_type: LexemeToken, line: u64, column: u64) -> Token {
    Token::LexemeToken { token_type, position: SourcePosition { line, column } }
}

fn context(line: &str, line_number: u64, offset: u64) -> MushContext {
    MushContext::new("script.mush".to_string(), line.to_string(), line_number, offset)
}

#[test]
fn empty_source_gives_end_of_file_only() {
    let scanner = scan("");
    assert_eq!(scanner.tokens(), &[keyword(KeywordToken::EndOfFile, 1, 0)]);
    assert!(scanner.errors().is_empty());
    assert!(!scanner.has_errors());
}

#[test]
fn single_character_tokens() {
    let cases = [
        ("(", KeywordToken::LeftParen),
        (")", KeywordToken::RightParen),
        ("{", KeywordToken::LeftCurl),
        ("}", KeywordToken::RightCurl),
        (",", KeywordToken::Comma),
        (".", KeywordToken::Dot),
        ("-", KeywordToken::Minus),
        ("+", KeywordToken::Plus),
        (";", KeywordToken::SemiColon),
        ("*", KeywordToken::Star),
    ];
    for (source, token_type) in cases {
        let scanner = scan(source);
        assert_eq!(
            scanner.tokens(),
            &[keyword(token_type, 1, 1), keyword(KeywordToken::EndOfFile, 1, 1)]
        );
        assert!(scanner.errors().is_empty());
    }
}

#[test]
fn bang_alone() {
    let scanner = scan("!");
    assert_eq!(
        scanner.tokens(),
        &[keyword(KeywordToken::Bang, 1, 1), keyword(KeywordToken::EndOfFile, 1, 1)]
    );
}

#[test]
fn bang_equal() {
    let scanner = scan("!=");
    assert_eq!(
        scanner.tokens(),
        &[keyword(KeywordToken::BangEqual, 1, 1), keyword(KeywordToken::EndOfFile, 1, 2)]
    );
}

#[test]
fn bang_before_another_token_leaves_it() {
    let scanner = scan("!(");
    assert_eq!(
        scanner.tokens(),
        &[
            keyword(KeywordToken::Bang, 1, 1),
            keyword(KeywordToken::LeftParen, 1, 2),
            keyword(KeywordToken::EndOfFile, 1, 2),
        ]
    );
}

#[test]
fn slash_alone_and_before_another_token() {
    let scanner = scan("/");
    assert_eq!(
        scanner.tokens(),
        &[keyword(KeywordToken::Slash, 1, 1), keyword(KeywordToken::EndOfFile, 1, 1)]
    );
    let scanner = scan("/*");
    assert_eq!(
        scanner.tokens(),
        &[
            keyword(KeywordToken::Slash, 1, 1),
            keyword(KeywordToken::Star, 1, 2),
            keyword(KeywordToken::EndOfFile, 1, 2),
        ]
    );
}

#[test]
fn comment_gives_no_token() {
    let scanner = scan("//comment\n");
    assert_eq!(
        scanner.tokens(),
        &[keyword(KeywordToken::NewLine, 1, 10), keyword(KeywordToken::EndOfFile, 2, 0)]
    );
    assert!(scanner.errors().is_empty());
}

#[test]
fn comment_at_the_end_of_the_source() {
    let scanner = scan("+ // $ \" 1");
    assert_eq!(
        scanner.tokens(),
        &[keyword(KeywordToken::Plus, 1, 1), keyword(KeywordToken::EndOfFile, 1, 10)]
    );
    assert!(scanner.errors().is_empty());
}

#[test]
fn tokens_after_a_comment_line() {
    let scanner = scan("// one\n+");
    assert_eq!(
        scanner.tokens(),
        &[
            keyword(KeywordToken::NewLine, 1, 7),
            keyword(KeywordToken::Plus, 2, 1),
            keyword(KeywordToken::EndOfFile, 2, 1),
        ]
    );
}

#[test]
fn string_literal() {
    let scanner = scan("\"abc\"");
    assert_eq!(
        scanner.tokens(),
        &[
            lexeme(LexemeToken::String("abc".to_string()), 1, 1),
            keyword(KeywordToken::EndOfFile, 1, 5),
        ]
    );
    assert!(scanner.errors().is_empty());
}

#[test]
fn empty_string_literal() {
    let scanner = scan("\"\"");
    assert_eq!(
        scanner.tokens(),
        &[
            lexeme(LexemeToken::String(String::new()), 1, 1),
            keyword(KeywordToken::EndOfFile, 1, 2),
        ]
    );
}

#[test]
fn string_literal_holds_what_would_be_tokens() {
    let scanner = scan("\"a // (1.5) $ é\"");
    assert_eq!(
        scanner.tokens(),
        &[
            lexeme(LexemeToken::String("a // (1.5) $ é".to_string()), 1, 1),
            keyword(KeywordToken::EndOfFile, 1, 16),
        ]
    );
    assert!(scanner.errors().is_empty());
}

#[test]
fn string_cut_by_newline() {
    let scanner = scan("\"abc\n+");
    assert_eq!(
        scanner.tokens(),
        &[
            keyword(KeywordToken::NewLine, 1, 5),
            keyword(KeywordToken::Plus, 2, 1),
            keyword(KeywordToken::EndOfFile, 2, 1),
        ]
    );
    assert_eq!(
        scanner.errors(),
        &vec![MushError::IncompleteString {
            partial: "abc".to_string(),
            ctx: context("\"abc", 1, 4),
        }]
    );
    assert!(scanner.has_errors());
}

#[test]
fn string_cut_by_the_end_of_the_source() {
    let scanner = scan("\"abc");
    assert_eq!(scanner.tokens(), &[keyword(KeywordToken::EndOfFile, 1, 4)]);
    assert_eq!(
        scanner.errors(),
        &vec![MushError::IncompleteString {
            partial: "abc".to_string(),
            ctx: context("\"abc", 1, 4),
        }]
    );
}

#[test]
fn float_literal() {
    let scanner = scan("123.45");
    assert_eq!(
        scanner.tokens(),
        &[
            lexeme(LexemeToken::Float("123.45".to_string()), 1, 1),
            keyword(KeywordToken::EndOfFile, 1, 6),
        ]
    );
    assert!(scanner.errors().is_empty());
}

#[test]
fn integer_literal() {
    let scanner = scan("123");
    assert_eq!(
        scanner.tokens(),
        &[
            lexeme(LexemeToken::Integer("123".to_string()), 1, 1),
            keyword(KeywordToken::EndOfFile, 1, 3),
        ]
    );
}

#[test]
fn integer_literals_start_with_any_digit() {
    for source in ["0", "9", "09", "90"] {
        let scanner = scan(source);
        assert_eq!(
            scanner.tokens()[0],
            lexeme(LexemeToken::Integer(source.to_string()), 1, 1)
        );
        assert_eq!(scanner.tokens().len(), 2);
        assert!(scanner.errors().is_empty());
    }
}

#[test]
fn number_ends_at_the_first_other_character() {
    let scanner = scan("12+3");
    assert_eq!(
        scanner.tokens(),
        &[
            lexeme(LexemeToken::Integer("12".to_string()), 1, 1),
            keyword(KeywordToken::Plus, 1, 3),
            lexeme(LexemeToken::Integer("3".to_string()), 1, 4),
            keyword(KeywordToken::EndOfFile, 1, 4),
        ]
    );
}

#[test]
fn dot_without_digits_after_it_still_makes_a_float() {
    let scanner = scan("12.");
    assert_eq!(
        scanner.tokens(),
        &[
            lexeme(LexemeToken::Float("12.".to_string()), 1, 1),
            keyword(KeywordToken::EndOfFile, 1, 3),
        ]
    );
    let scanner = scan("12.)");
    assert_eq!(
        scanner.tokens(),
        &[
            lexeme(LexemeToken::Float("12.".to_string()), 1, 1),
            keyword(KeywordToken::RightParen, 1, 4),
            keyword(KeywordToken::EndOfFile, 1, 4),
        ]
    );
}

#[test]
fn second_dot_ends_a_float() {
    let scanner = scan("1.2.3");
    assert_eq!(
        scanner.tokens(),
        &[
            lexeme(LexemeToken::Float("1.2".to_string()), 1, 1),
            keyword(KeywordToken::Dot, 1, 4),
            lexeme(LexemeToken::Integer("3".to_string()), 1, 5),
            keyword(KeywordToken::EndOfFile, 1, 5),
        ]
    );
}

#[test]
fn dot_before_digits_is_a_dot() {
    let scanner = scan(".5");
    assert_eq!(
        scanner.tokens(),
        &[
            keyword(KeywordToken::Dot, 1, 1),
            lexeme(LexemeToken::Integer("5".to_string()), 1, 2),
            keyword(KeywordToken::EndOfFile, 1, 2),
        ]
    );
}

#[test]
fn unknown_character_is_recorded_and_the_scan_goes_on() {
    let scanner = scan("$");
    assert_eq!(scanner.tokens(), &[keyword(KeywordToken::EndOfFile, 1, 1)]);
    assert_eq!(
        scanner.errors(),
        &vec![MushError::UnknownCharacter { unknown_character: '$', ctx: context("$", 1, 1) }]
    );

    let scanner = scan("$+");
    assert_eq!(
        scanner.tokens(),
        &[keyword(KeywordToken::Plus, 1, 2), keyword(KeywordToken::EndOfFile, 1, 2)]
    );
    assert_eq!(
        scanner.errors(),
        &vec![MushError::UnknownCharacter { unknown_character: '$', ctx: context("$", 1, 1) }]
    );
}

#[test]
fn letters_and_comparison_signs_start_no_token() {
    let scanner = scan("a=<>");
    assert_eq!(scanner.tokens(), &[keyword(KeywordToken::EndOfFile, 1, 4)]);
    assert_eq!(
        scanner.errors(),
        &vec![
            MushError::UnknownCharacter { unknown_character: 'a', ctx: context("a", 1, 1) },
            MushError::UnknownCharacter { unknown_character: '=', ctx: context("a=", 1, 2) },
            MushError::UnknownCharacter { unknown_character: '<', ctx: context("a=<", 1, 3) },
            MushError::UnknownCharacter { unknown_character: '>', ctx: context("a=<>", 1, 4) },
        ]
    );
}

#[test]
fn blanks_give_no_token_and_count_as_columns() {
    let scanner = scan(" \t\r+");
    assert_eq!(
        scanner.tokens(),
        &[keyword(KeywordToken::Plus, 1, 4), keyword(KeywordToken::EndOfFile, 1, 4)]
    );
    assert!(scanner.errors().is_empty());
}

#[test]
fn newline_starts_a_line_at_column_zero() {
    let scanner = scan("a\nb");
    assert_eq!(
        scanner.tokens(),
        &[keyword(KeywordToken::NewLine, 1, 2), keyword(KeywordToken::EndOfFile, 2, 1)]
    );
    assert_eq!(
        scanner.errors(),
        &vec![
            MushError::UnknownCharacter { unknown_character: 'a', ctx: context("a", 1, 1) },
            MushError::UnknownCharacter { unknown_character: 'b', ctx: context("b", 2, 1) },
        ]
    );
}

#[test]
fn positions_over_several_lines() {
    let scanner = scan("(\n\n  12 \"x\"\n)");
    assert_eq!(
        scanner.tokens(),
        &[
            keyword(KeywordToken::LeftParen, 1, 1),
            keyword(KeywordToken::NewLine, 1, 2),
            keyword(KeywordToken::NewLine, 2, 1),
            lexeme(LexemeToken::Integer("12".to_string()), 3, 3),
            lexeme(LexemeToken::String("x".to_string()), 3, 6),
            keyword(KeywordToken::NewLine, 3, 9),
            keyword(KeywordToken::RightParen, 4, 1),
            keyword(KeywordToken::EndOfFile, 4, 1),
        ]
    );
}

#[test]
fn characters_of_several_bytes_count_as_one_column() {
    let scanner = scan("é€😀+");
    assert_eq!(
        scanner.tokens(),
        &[keyword(KeywordToken::Plus, 1, 4), keyword(KeywordToken::EndOfFile, 1, 4)]
    );
    assert_eq!(
        scanner.errors(),
        &vec![
            MushError::UnknownCharacter { unknown_character: 'é', ctx: context("é", 1, 1) },
            MushError::UnknownCharacter { unknown_character: '€', ctx: context("é€", 1, 2) },
            MushError::UnknownCharacter { unknown_character: '😀', ctx: context("é€😀", 1, 3) },
        ]
    );
}

#[test]
fn advance_reads_one_character_and_moves_nothing() {
    let ctx = MushContext::new("script.mush".to_string(), String::new(), 1, 0);
    let scanner = Scanner::new("aé€😀".as_bytes().to_vec(), ctx);
    assert_eq!(scanner.advance(0), Ok(('a', 1)));
    assert_eq!(scanner.advance(1), Ok(('é', 3)));
    assert_eq!(scanner.advance(3), Ok(('€', 6)));
    assert_eq!(scanner.advance(6), Ok(('😀', 10)));
    assert_eq!(scanner.advance(0), Ok(('a', 1)));
    assert!(!scanner.is_done());
    assert!(scanner.tokens().is_empty());
}

#[test]
fn advance_fails_inside_a_character_and_at_the_end() {
    let ctx = MushContext::new("script.mush".to_string(), String::new(), 1, 0);
    let scanner = Scanner::new("é".as_bytes().to_vec(), ctx);
    let expected = MushError::InvalidEncoding { ctx: context("", 1, 0) };
    assert_eq!(scanner.advance(1), Err(MushError::InvalidEncoding { ctx: context("", 1, 0) }));
    assert_eq!(scanner.advance(2), Err(MushError::InvalidEncoding { ctx: context("", 1, 0) }));
    assert_eq!(scanner.advance(7), Err(expected));
}

#[test]
fn malformed_bytes_end_the_scan() {
    let error = scan_bytes(vec![b'+', 0xff, 0xff, 0xff, 0xff, b'+']).err();
    assert_eq!(error, Some(MushError::InvalidEncoding { ctx: context("+", 1, 1) }));
}

#[test]
fn overlong_and_surrogate_encodings_are_malformed() {
    assert!(scan_bytes(vec![0xc0, 0x80]).is_err());
    assert!(scan_bytes(vec![0xed, 0xa0, 0x80]).is_err());
    assert!(scan_bytes(vec![0xf4, 0x90, 0x80, 0x80]).is_err());
    assert!(scan_bytes(vec![0x80]).is_err());
}

#[test]
fn character_cut_by_the_end_of_the_source_ends_the_scan() {
    let error = scan_bytes(vec![b'(', b'\n', 0xe2, 0x82]).err();
    assert_eq!(error, Some(MushError::InvalidEncoding { ctx: context("", 2, 0) }));
}

#[test]
fn malformed_bytes_after_a_lookahead_end_the_scan() {
    for first in [b'!', b'/', b'"', b'1'] {
        let error = scan_bytes(vec![first, 0xff]).err();
        let line = (first as char).to_string();
        assert_eq!(error, Some(MushError::InvalidEncoding { ctx: context(&line, 1, 1) }));
    }
}

#[test]
fn tokens_found_before_malformed_bytes_are_kept() {
    let ctx = MushContext::new("script.mush".to_string(), String::new(), 1, 0);
    let mut scanner = Scanner::new(vec![b'+', b'$', 0xff], ctx);
    assert!(scanner.scan_tokens().is_err());
    assert_eq!(scanner.tokens(), &[keyword(KeywordToken::Plus, 1, 1)]);
    assert_eq!(scanner.errors().len(), 1);
}

#[test]
fn scan_token_takes_one_step() {
    let ctx = MushContext::new("script.mush".to_string(), String::new(), 1, 0);
    let mut scanner = Scanner::new("12 !=".as_bytes().to_vec(), ctx);
    assert_eq!(scanner.scan_token(), Ok(()));
    assert_eq!(scanner.tokens(), &[lexeme(LexemeToken::Integer("12".to_string()), 1, 1)]);
    assert_eq!(scanner.scan_token(), Ok(()));
    assert_eq!(scanner.tokens().len(), 1);
    assert!(!scanner.is_done());
    assert_eq!(scanner.scan_token(), Ok(()));
    assert_eq!(scanner.tokens()[1], keyword(KeywordToken::BangEqual, 1, 4));
    assert!(scanner.is_done());
    assert_eq!(
        scanner.scan_token(),
        Err(MushError::InvalidEncoding { ctx: context("12 !=", 1, 5) })
    );
}

#[test]
fn scan_starts_from_the_given_context() {
    let ctx = MushContext::new("lib.ms".to_string(), "ab".to_string(), 7, 2);
    let mut scanner = Scanner::new("$\n+".as_bytes().to_vec(), ctx);
    assert_eq!(scanner.scan_tokens(), Ok(()));
    assert_eq!(
        scanner.tokens(),
        &[
            keyword(KeywordToken::NewLine, 7, 4),
            keyword(KeywordToken::Plus, 8, 1),
            keyword(KeywordToken::EndOfFile, 8, 1),
        ]
    );
    assert_eq!(
        scanner.errors(),
        &vec![MushError::UnknownCharacter {
            unknown_character: '$',
            ctx: MushContext::new("lib.ms".to_string(), "ab$".to_string(), 7, 3),
        }]
    );
}

#[test]
fn keyword_lexemes() {
    assert_eq!(KeywordToken::LeftParen.as_str(), "(");
    assert_eq!(KeywordToken::RightParen.as_str(), ")");
    assert_eq!(KeywordToken::LeftCurl.as_str(), "{");
    assert_eq!(KeywordToken::RightCurl.as_str(), "}");
    assert_eq!(KeywordToken::Comma.as_str(), ",");
    assert_eq!(KeywordToken::Dot.as_str(), ".");
    assert_eq!(KeywordToken::Minus.as_str(), "-");
    assert_eq!(KeywordToken::Plus.as_str(), "+");
    assert_eq!(KeywordToken::SemiColon.as_str(), ";");
    assert_eq!(KeywordToken::NewLine.as_str(), "\n");
    assert_eq!(KeywordToken::Slash.as_str(), "/");
    assert_eq!(KeywordToken::Star.as_str(), "*");
    assert_eq!(KeywordToken::Bang.as_str(), "!");
    assert_eq!(KeywordToken::BangEqual.as_str(), "!=");
    assert_eq!(KeywordToken::Equal.as_str(), "=");
    assert_eq!(KeywordToken::EqualEqual.as_str(), "==");
    assert_eq!(KeywordToken::Greater.as_str(), ">");
    assert_eq!(KeywordToken::GreaterEqual.as_str(), ">=");
    assert_eq!(KeywordToken::Less.as_str(), "<");
    assert_eq!(KeywordToken::LessEqual.as_str(), "<=");
    assert_eq!(KeywordToken::And.as_str(), "and");
    assert_eq!(KeywordToken::Fn.as_str(), "fn");
    assert_eq!(KeywordToken::For.as_str(), "for");
    assert_eq!(KeywordToken::If.as_str(), "if");
    assert_eq!(KeywordToken::NoneValue.as_str(), "None");
    assert_eq!(KeywordToken::Or.as_str(), "or");
    assert_eq!(KeywordToken::Return.as_str(), "return");
    assert_eq!(KeywordToken::True.as_str(), "True");
    assert_eq!(KeywordToken::False.as_str(), "False");
    assert_eq!(KeywordToken::Let.as_str(), "let");
    assert_eq!(KeywordToken::While.as_str(), "while");
    assert_eq!(KeywordToken::EndOfFile.as_str(), "");
}

#[test]
fn context_getters_and_setters() {
    let mut ctx = MushContext::new("a.ms".to_string(), "let".to_string(), 3, 9);
    assert_eq!(ctx.file(), "a.ms");
    assert_eq!(ctx.line(), "let");
    assert_eq!(ctx.line_number(), 3);
    assert_eq!(ctx.offset(), 9);
    ctx.set_line("fn".to_string());
    ctx.set_line_number(10);
    ctx.set_offset(0);
    assert_eq!(ctx, MushContext::new("a.ms".to_string(), "fn".to_string(), 10, 0));
    ctx.increment_line_number();
    ctx.increment_offset();
    ctx.push_to_line('(');
    assert_eq!(ctx, MushContext::new("a.ms".to_string(), "fn(".to_string(), 11, 1));
    assert_eq!(ctx.clone(), ctx);
}

#[test]
fn punctuation_characters() {
    assert_eq!(punctuation_of('('), Some(KeywordToken::LeftParen));
    assert_eq!(punctuation_of(')'), Some(KeywordToken::RightParen));
    assert_eq!(punctuation_of('{'), Some(KeywordToken::LeftCurl));
    assert_eq!(punctuation_of('}'), Some(KeywordToken::RightCurl));
    assert_eq!(punctuation_of(','), Some(KeywordToken::Comma));
    assert_eq!(punctuation_of('.'), Some(KeywordToken::Dot));
    assert_eq!(punctuation_of('-'), Some(KeywordToken::Minus));
    assert_eq!(punctuation_of('+'), Some(KeywordToken::Plus));
    assert_eq!(punctuation_of(';'), Some(KeywordToken::SemiColon));
    assert_eq!(punctuation_of('*'), Some(KeywordToken::Star));
    for c in ['!', '/', '"', '\n', ' ', '0', 'a', '=', '<', '>', '[', '$', 'é'] {
        assert_eq!(punctuation_of(c), None);
    }
}

#[test]
fn scalars_of_one_to_four_bytes() {
    assert_eq!(read_scalar(&[0x00], 0), Some(('\0', 1)));
    assert_eq!(read_scalar(&[0x7f], 0), Some(('\u{7f}', 1)));
    assert_eq!(read_scalar(&[0xc2, 0x80], 0), Some(('\u{80}', 2)));
    assert_eq!(read_scalar(&[0xdf, 0xbf], 0), Some(('\u{7ff}', 2)));
    assert_eq!(read_scalar(&[0xe0, 0xa0, 0x80], 0), Some(('\u{800}', 3)));
    assert_eq!(read_scalar(&[0xed, 0x9f, 0xbf], 0), Some(('\u{d7ff}', 3)));
    assert_eq!(read_scalar(&[0xee, 0x80, 0x80], 0), Some(('\u{e000}', 3)));
    assert_eq!(read_scalar(&[0xef, 0xbf, 0xbf], 0), Some(('\u{ffff}', 3)));
    assert_eq!(read_scalar(&[0xf0, 0x90, 0x80, 0x80], 0), Some(('\u{10000}', 4)));
    assert_eq!(read_scalar(&[0xf4, 0x8f, 0xbf, 0xbf], 0), Some(('\u{10ffff}', 4)));
    assert_eq!(read_scalar(&[b'a', 0xc3, 0xa9, b'b'], 1), Some(('é', 3)));
    assert_eq!(read_scalar(&[b'a', 0xc3, 0xa9, b'b'], 3), Some(('b', 4)));
}

#[test]
fn bytes_that_start_no_scalar() {
    assert_eq!(read_scalar(&[], 0), None);
    assert_eq!(read_scalar(&[b'a'], 1), None);
    assert_eq!(read_scalar(&[b'a'], usize::MAX), None);
    assert_eq!(read_scalar(&[0x80], 0), None);
    assert_eq!(read_scalar(&[0xc3], 0), None);
    assert_eq!(read_scalar(&[0xc3, b'a'], 0), None);
    assert_eq!(read_scalar(&[0xc1, 0xbf], 0), None);
    assert_eq!(read_scalar(&[0xe0, 0x9f, 0xbf], 0), None);
    assert_eq!(read_scalar(&[0xed, 0xa0, 0x80], 0), None);
    assert_eq!(read_scalar(&[0xf0, 0x8f, 0xbf, 0xbf], 0), None);
    assert_eq!(read_scalar(&[0xf4, 0x90, 0x80, 0x80], 0), None);
    assert_eq!(read_scalar(&[0xf8, 0x88, 0x80, 0x80, 0x80], 0), None);
    assert_eq!(read_scalar(&[0xe2, 0x82], 0), None);
    assert_eq!(read_scalar(&[0xc3, 0xa9], 1), None);
}

#[test]
fn copies_of_tokens_are_equal() {
    let token = lexeme(LexemeToken::Float("1.5".to_string()), 2, 3);
    assert_eq!(token.clone(), token);
    let token = keyword(KeywordToken::While, 4, 5);
    assert_eq!(token.clone(), token);
    for text in [
        LexemeToken::Identifier("x".to_string()),
        LexemeToken::String("s".to_string()),
        LexemeToken::Integer("1".to_string()),
        LexemeToken::Float("1.".to_string()),
    ] {
        assert_eq!(text.clone(), text);
    }
}

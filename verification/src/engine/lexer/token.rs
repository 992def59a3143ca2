//! The vocabulary of the language at the lexical level.

use vstd::prelude::*;

verus! {

/// A token that its tag alone determines: punctuation, operators, reserved
/// words and the end-of-file marker.
#[derive(Clone, Copy, Debug, PartialEq, Eq)]
pub enum KeywordToken {
    LeftParen,
    RightParen,
    LeftCurl,
    RightCurl,
    Comma,
    Dot,
    Minus,
    Plus,
    SemiColon,
    NewLine,
    Slash,
    Star,
    Bang,
    BangEqual,
    Equal,
    EqualEqual,
    Greater,
    GreaterEqual,
    Less,
    LessEqual,
    And,
    Fn,
    For,
    If,
    NoneValue,
    Or,
    Return,
    True,
    False,
    Let,
    While,
    EndOfFile,
}

impl KeywordToken {
    /// The fixed text of the token as it stands in a source; the end-of-file
    /// marker has none.
    pub open spec fn lexeme(self) -> Seq<char> {
        match self {
            KeywordToken::LeftParen => "("@,
            KeywordToken::RightParen => ")"@,
            KeywordToken::LeftCurl => "{"@,
            KeywordToken::RightCurl => "}"@,
            KeywordToken::Comma => ","@,
            KeywordToken::Dot => "."@,
            KeywordToken::Minus => "-"@,
            KeywordToken::Plus => "+"@,
            KeywordToken::SemiColon => ";"@,
            KeywordToken::NewLine => "\n"@,
            KeywordToken::Slash => "/"@,
            KeywordToken::Star => "*"@,
            KeywordToken::Bang => "!"@,
            KeywordToken::BangEqual => "!="@,
            KeywordToken::Equal => "="@,
            KeywordToken::EqualEqual => "=="@,
            KeywordToken::Greater => ">"@,
            KeywordToken::GreaterEqual => ">="@,
            KeywordToken::Less => "<"@,
            KeywordToken::LessEqual => "<="@,
            KeywordToken::And => "and"@,
            KeywordToken::Fn => "fn"@,
            KeywordToken::For => "for"@,
            KeywordToken::If => "if"@,
            KeywordToken::NoneValue => "None"@,
            KeywordToken::Or => "or"@,
            KeywordToken::Return => "return"@,
            KeywordToken::True => "True"@,
            KeywordToken::False => "False"@,
            KeywordToken::Let => "let"@,
            KeywordToken::While => "while"@,
            KeywordToken::EndOfFile => ""@,
        }
    }

    pub fn as_str(&self) -> (text: &'static str)
        ensures
            text@ == self.lexeme(),
    {
        match self {
            KeywordToken::LeftParen => "(",
            KeywordToken::RightParen => ")",
            KeywordToken::LeftCurl => "{",
            KeywordToken::RightCurl => "}",
            KeywordToken::Comma => ",",
            KeywordToken::Dot => ".",
            KeywordToken::Minus => "-",
            KeywordToken::Plus => "+",
            KeywordToken::SemiColon => ";",
            KeywordToken::NewLine => "\n",
            KeywordToken::Slash => "/",
            KeywordToken::Star => "*",
            KeywordToken::Bang => "!",
            KeywordToken::BangEqual => "!=",
            KeywordToken::Equal => "=",
            KeywordToken::EqualEqual => "==",
            KeywordToken::Greater => ">",
            KeywordToken::GreaterEqual => ">=",
            KeywordToken::Less => "<",
            KeywordToken::LessEqual => "<=",
            KeywordToken::And => "and",
            KeywordToken::Fn => "fn",
            KeywordToken::For => "for",
            KeywordToken::If => "if",
            KeywordToken::NoneValue => "None",
            KeywordToken::Or => "or",
            KeywordToken::Return => "return",
            KeywordToken::True => "True",
            KeywordToken::False => "False",
            KeywordToken::Let => "let",
            KeywordToken::While => "while",
            KeywordToken::EndOfFile => "",
        }
    }
}

/// A token that carries the text it was read from.
#[derive(Debug, PartialEq, Eq)]
pub enum LexemeToken {
    Identifier(String),
    String(String),
    Integer(String),
    Float(String),
}

/// What a [`LexemeToken`] holds, as mathematical values.
pub enum LexemeView {
    Identifier(Seq<char>),
    String(Seq<char>),
    Integer(Seq<char>),
    Float(Seq<char>),
}

impl LexemeView {
    /// The text that the token carries.
    pub open spec fn text(self) -> Seq<char> {
        match self {
            LexemeView::Identifier(text) => text,
            LexemeView::String(text) => text,
            LexemeView::Integer(text) => text,
            LexemeView::Float(text) => text,
        }
    }
}

impl View for LexemeToken {
    type V = LexemeView;

    open spec fn view(&self) -> LexemeView {
        match *self {
            LexemeToken::Identifier(text) => LexemeView::Identifier(text@),
            LexemeToken::String(text) => LexemeView::String(text@),
            LexemeToken::Integer(text) => LexemeView::Integer(text@),
            LexemeToken::Float(text) => LexemeView::Float(text@),
        }
    }
}

impl Clone for LexemeToken {
    fn clone(&self) -> (copy: Self)
        ensures
            copy@ == self@,
    {
        match self {
            LexemeToken::Identifier(text) => LexemeToken::Identifier(text.clone()),
            LexemeToken::String(text) => LexemeToken::String(text.clone()),
            LexemeToken::Integer(text) => LexemeToken::Integer(text.clone()),
            LexemeToken::Float(text) => LexemeToken::Float(text.clone()),
        }
    }
}

/// Where in the source a character stands: its line, counted from 1, and
/// its column, the number of characters read on that line up to and
/// including it.
#[derive(Clone, Copy, Debug, PartialEq, Eq)]
pub struct SourcePosition {
    pub line: u64,
    pub column: u64,
}

/// A [`SourcePosition`] in unbounded numbers.
pub struct Position {
    pub line: nat,
    pub column: nat,
}

impl View for SourcePosition {
    type V = Position;

    open spec fn view(&self) -> Position {
        Position { line: self.line as nat, column: self.column as nat }
    }
}

/// A token together with the position at which its first character was
/// read.
#[allow(inconsistent_fields)]
#[derive(Debug, PartialEq, Eq)]
pub enum Token {
    KeywordToken { token_type: KeywordToken, position: SourcePosition },
    LexemeToken { token_type: LexemeToken, position: SourcePosition },
}

/// What a [`Token`] holds, as mathematical values.
#[allow(inconsistent_fields)]
pub enum TokenView {
    KeywordToken { token_type: KeywordToken, position: Position },
    LexemeToken { token_type: LexemeView, position: Position },
}

impl TokenView {
    /// The position at which the first character of the token was read.
    pub open spec fn position(self) -> Position {
        match self {
            TokenView::KeywordToken { position, .. } => position,
            TokenView::LexemeToken { position, .. } => position,
        }
    }
}

impl View for Token {
    type V = TokenView;

    open spec fn view(&self) -> TokenView {
        match *self {
            Token::KeywordToken { token_type, position } => TokenView::KeywordToken {
                token_type,
                position: position@,
            },
            Token::LexemeToken { token_type, position } => TokenView::LexemeToken {
                token_type: token_type@,
                position: position@,
            },
        }
    }
}

impl Clone for Token {
    fn clone(&self) -> (copy: Self)
        ensures
            copy@ == self@,
    {
        match self {
            Token::KeywordToken { token_type, position } => Token::KeywordToken {
                token_type: *token_type,
                position: *position,
            },
            Token::LexemeToken { token_type, position } => Token::LexemeToken {
                token_type: token_type.clone(),
                position: *position,
            },
        }
    }
}

/// The tokens of a scan, as mathematical values.
pub open spec fn tokens_view(tokens: Seq<Token>) -> Seq<TokenView> {
    tokens.map_values(|token: Token| token@)
}

} // verus!

//! The tokens of the query language.

use vstd::prelude::*;

verus! {

/// A token, with what its lexeme carries.
#[derive(Debug, PartialEq)]
pub enum Token {
    /// `:`
    Colon,
    /// `]`
    RBracket,
    /// `[`
    LBracket,
    /// `)`
    RParen,
    /// `(`
    LParen,
    /// `}`, which closes a key/value block
    RBrace,
    /// `{`, which opens a key/value block
    LBrace,
    /// `.`
    Dot,
    /// `,`
    Comma,
    /// `;`
    Semicolon,
    /// `*`
    Asterisk,
    /// `->`
    ArrowRight,
    /// A left-pointing arrow. No scanning rule produces it.
    ArrowLeft,
    /// `>`
    GreaterThan,
    /// `<`
    SmallerThan,
    /// `=`
    Equals,
    /// Not-equals. No scanning rule produces it.
    NotEquals,
    /// `>=`
    GreaterThanOrEquals,
    /// `<=`
    SmallerThanOrEquals,
    /// A word that is not a keyword.
    Identifier(String),
    /// A string literal, with its escapes resolved.
    StringLiteral(String),
    /// An unsigned integer literal.
    IntLiteral(usize),
    /// A floating-point literal, kept as its text: digits, a dot, digits.
    FloatLiteral(String),
    /// `select`
    Select,
    /// `create`
    Create,
    /// `where`
    Where,
    /// `like`
    Like,
    /// `link`
    Link,
    /// `from`
    From,
    /// `and`
    And,
    /// `or`
    Or,
    /// A character that starts no token, or the first character of a malformed one.
    Unknown(char),
}

/// What a token is, without what it carries. The grammar matches on kinds.
#[derive(Debug, Clone, Copy, PartialEq, Eq, Structural)]
pub enum TokenKind {
    /// `:`
    Colon,
    /// `]`
    RBracket,
    /// `[`
    LBracket,
    /// `)`
    RParen,
    /// `(`
    LParen,
    /// `}`, which closes a key/value block
    RBrace,
    /// `{`, which opens a key/value block
    LBrace,
    /// `.`
    Dot,
    /// `,`
    Comma,
    /// `;`
    Semicolon,
    /// `*`
    Asterisk,
    /// `->`
    ArrowRight,
    /// A left-pointing arrow. No scanning rule produces it.
    ArrowLeft,
    /// `>`
    GreaterThan,
    /// `<`
    SmallerThan,
    /// `=`
    Equals,
    /// Not-equals. No scanning rule produces it.
    NotEquals,
    /// `>=`
    GreaterThanOrEquals,
    /// `<=`
    SmallerThanOrEquals,
    /// A word that is not a keyword.
    Identifier,
    /// A string literal, with its escapes resolved.
    StringLiteral,
    /// An unsigned integer literal.
    IntLiteral,
    /// A floating-point literal, kept as its text: digits, a dot, digits.
    FloatLiteral,
    /// `select`
    Select,
    /// `create`
    Create,
    /// `where`
    Where,
    /// `like`
    Like,
    /// `link`
    Link,
    /// `from`
    From,
    /// `and`
    And,
    /// `or`
    Or,
    /// A character that starts no token, or the first character of a malformed one.
    Unknown,
}

/// The mathematical value of a [`Token`].
pub enum TokenView {
    /// `:`
    Colon,
    /// `]`
    RBracket,
    /// `[`
    LBracket,
    /// `)`
    RParen,
    /// `(`
    LParen,
    /// `}`, which closes a key/value block
    RBrace,
    /// `{`, which opens a key/value block
    LBrace,
    /// `.`
    Dot,
    /// `,`
    Comma,
    /// `;`
    Semicolon,
    /// `*`
    Asterisk,
    /// `->`
    ArrowRight,
    /// A left-pointing arrow. No scanning rule produces it.
    ArrowLeft,
    /// `>`
    GreaterThan,
    /// `<`
    SmallerThan,
    /// `=`
    Equals,
    /// Not-equals. No scanning rule produces it.
    NotEquals,
    /// `>=`
    GreaterThanOrEquals,
    /// `<=`
    SmallerThanOrEquals,
    /// A word that is not a keyword.
    Identifier(Seq<char>),
    /// A string literal, with its escapes resolved.
    StringLiteral(Seq<char>),
    /// An unsigned integer literal.
    IntLiteral(nat),
    /// A floating-point literal, kept as its text: digits, a dot, digits.
    FloatLiteral(Seq<char>),
    /// `select`
    Select,
    /// `create`
    Create,
    /// `where`
    Where,
    /// `like`
    Like,
    /// `link`
    Link,
    /// `from`
    From,
    /// `and`
    And,
    /// `or`
    Or,
    /// A character that starts no token, or the first character of a malformed one.
    Unknown(char),
}

impl TokenView {
    /// What the token is, without what it carries.
    pub open spec fn kind(self) -> TokenKind {
        match self {
            TokenView::Colon => TokenKind::Colon,
            TokenView::RBracket => TokenKind::RBracket,
            TokenView::LBracket => TokenKind::LBracket,
            TokenView::RParen => TokenKind::RParen,
            TokenView::LParen => TokenKind::LParen,
            TokenView::RBrace => TokenKind::RBrace,
            TokenView::LBrace => TokenKind::LBrace,
            TokenView::Dot => TokenKind::Dot,
            TokenView::Comma => TokenKind::Comma,
            TokenView::Semicolon => TokenKind::Semicolon,
            TokenView::Asterisk => TokenKind::Asterisk,
            TokenView::ArrowRight => TokenKind::ArrowRight,
            TokenView::ArrowLeft => TokenKind::ArrowLeft,
            TokenView::GreaterThan => TokenKind::GreaterThan,
            TokenView::SmallerThan => TokenKind::SmallerThan,
            TokenView::Equals => TokenKind::Equals,
            TokenView::NotEquals => TokenKind::NotEquals,
            TokenView::GreaterThanOrEquals => TokenKind::GreaterThanOrEquals,
            TokenView::SmallerThanOrEquals => TokenKind::SmallerThanOrEquals,
            TokenView::Identifier(_) => TokenKind::Identifier,
            TokenView::StringLiteral(_) => TokenKind::StringLiteral,
            TokenView::IntLiteral(_) => TokenKind::IntLiteral,
            TokenView::FloatLiteral(_) => TokenKind::FloatLiteral,
            TokenView::Select => TokenKind::Select,
            TokenView::Create => TokenKind::Create,
            TokenView::Where => TokenKind::Where,
            TokenView::Like => TokenKind::Like,
            TokenView::Link => TokenKind::Link,
            TokenView::From => TokenKind::From,
            TokenView::And => TokenKind::And,
            TokenView::Or => TokenKind::Or,
            TokenView::Unknown(_) => TokenKind::Unknown,
        }
    }
}

impl View for Token {
    type V = TokenView;

    open spec fn view(&self) -> TokenView {
        match self {
            Token::Colon => TokenView::Colon,
            Token::RBracket => TokenView::RBracket,
            Token::LBracket => TokenView::LBracket,
            Token::RParen => TokenView::RParen,
            Token::LParen => TokenView::LParen,
            Token::RBrace => TokenView::RBrace,
            Token::LBrace => TokenView::LBrace,
            Token::Dot => TokenView::Dot,
            Token::Comma => TokenView::Comma,
            Token::Semicolon => TokenView::Semicolon,
            Token::Asterisk => TokenView::Asterisk,
            Token::ArrowRight => TokenView::ArrowRight,
            Token::ArrowLeft => TokenView::ArrowLeft,
            Token::GreaterThan => TokenView::GreaterThan,
            Token::SmallerThan => TokenView::SmallerThan,
            Token::Equals => TokenView::Equals,
            Token::NotEquals => TokenView::NotEquals,
            Token::GreaterThanOrEquals => TokenView::GreaterThanOrEquals,
            Token::SmallerThanOrEquals => TokenView::SmallerThanOrEquals,
            Token::Identifier(text) => TokenView::Identifier(text@),
            Token::StringLiteral(text) => TokenView::StringLiteral(text@),
            Token::IntLiteral(value) => TokenView::IntLiteral(*value as nat),
            Token::FloatLiteral(text) => TokenView::FloatLiteral(text@),
            Token::Select => TokenView::Select,
            Token::Create => TokenView::Create,
            Token::Where => TokenView::Where,
            Token::Like => TokenView::Like,
            Token::Link => TokenView::Link,
            Token::From => TokenView::From,
            Token::And => TokenView::And,
            Token::Or => TokenView::Or,
            Token::Unknown(c) => TokenView::Unknown(*c),
        }
    }
}

impl Clone for Token {
    fn clone(&self) -> (copy: Self)
        ensures
            copy@ == self@,
    {
        match self {
            Token::Colon => Token::Colon,
            Token::RBracket => Token::RBracket,
            Token::LBracket => Token::LBracket,
            Token::RParen => Token::RParen,
            Token::LParen => Token::LParen,
            Token::RBrace => Token::RBrace,
            Token::LBrace => Token::LBrace,
            Token::Dot => Token::Dot,
            Token::Comma => Token::Comma,
            Token::Semicolon => Token::Semicolon,
            Token::Asterisk => Token::Asterisk,
            Token::ArrowRight => Token::ArrowRight,
            Token::ArrowLeft => Token::ArrowLeft,
            Token::GreaterThan => Token::GreaterThan,
            Token::SmallerThan => Token::SmallerThan,
            Token::Equals => Token::Equals,
            Token::NotEquals => Token::NotEquals,
            Token::GreaterThanOrEquals => Token::GreaterThanOrEquals,
            Token::SmallerThanOrEquals => Token::SmallerThanOrEquals,
            Token::Identifier(text) => Token::Identifier(text.clone()),
            Token::StringLiteral(text) => Token::StringLiteral(text.clone()),
            Token::IntLiteral(value) => Token::IntLiteral(*value),
            Token::FloatLiteral(text) => Token::FloatLiteral(text.clone()),
            Token::Select => Token::Select,
            Token::Create => Token::Create,
            Token::Where => Token::Where,
            Token::Like => Token::Like,
            Token::Link => Token::Link,
            Token::From => Token::From,
            Token::And => Token::And,
            Token::Or => Token::Or,
            Token::Unknown(c) => Token::Unknown(*c),
        }
    }
}

impl Token {
    /// What the token is, without what it carries.
    pub fn kind(&self) -> (kind: TokenKind)
        ensures
            kind == self@.kind(),
    {
        match self {
            Token::Colon => TokenKind::Colon,
            Token::RBracket => TokenKind::RBracket,
            Token::LBracket => TokenKind::LBracket,
            Token::RParen => TokenKind::RParen,
            Token::LParen => TokenKind::LParen,
            Token::RBrace => TokenKind::RBrace,
            Token::LBrace => TokenKind::LBrace,
            Token::Dot => TokenKind::Dot,
            Token::Comma => TokenKind::Comma,
            Token::Semicolon => TokenKind::Semicolon,
            Token::Asterisk => TokenKind::Asterisk,
            Token::ArrowRight => TokenKind::ArrowRight,
            Token::ArrowLeft => TokenKind::ArrowLeft,
            Token::GreaterThan => TokenKind::GreaterThan,
            Token::SmallerThan => TokenKind::SmallerThan,
            Token::Equals => TokenKind::Equals,
            Token::NotEquals => TokenKind::NotEquals,
            Token::GreaterThanOrEquals => TokenKind::GreaterThanOrEquals,
            Token::SmallerThanOrEquals => TokenKind::SmallerThanOrEquals,
            Token::Identifier(_) => TokenKind::Identifier,
            Token::StringLiteral(_) => TokenKind::StringLiteral,
            Token::IntLiteral(_) => TokenKind::IntLiteral,
            Token::FloatLiteral(_) => TokenKind::FloatLiteral,
            Token::Select => TokenKind::Select,
            Token::Create => TokenKind::Create,
            Token::Where => TokenKind::Where,
            Token::Like => TokenKind::Like,
            Token::Link => TokenKind::Link,
            Token::From => TokenKind::From,
            Token::And => TokenKind::And,
            Token::Or => TokenKind::Or,
            Token::Unknown(_) => TokenKind::Unknown,
        }
    }
}

} // verus!

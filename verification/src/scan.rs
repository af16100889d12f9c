//! What the scanner reads out of a text, stated over sequences of symbols:
//! the characters of the text, each with the classes that it is in.
//!
//! Positions are indices into the sequence of symbols. The byte offsets that
//! spans hold are derived from them by [`byte_offset`].

use crate::span::Span;
use crate::text::{
    byte_offset, chars_of, digits_value, is_digit, lemma_run_end, run_end, CharClass, Symbol,
};
use crate::token::{Token, TokenView};
use vstd::prelude::*;

verus! {

/// A token together with the characters it was read from: those from `start`
/// up to, not including, `end`.
pub struct Lexeme {
    pub token: TokenView,
    pub start: int,
    pub end: int,
}

/// The token that a character makes on its own, whatever follows it.
pub open spec fn punctuation(c: char) -> Option<TokenView> {
    if c == ':' {
        Some(TokenView::Colon)
    } else if c == '(' {
        Some(TokenView::LParen)
    } else if c == ')' {
        Some(TokenView::RParen)
    } else if c == '[' {
        Some(TokenView::LBracket)
    } else if c == ']' {
        Some(TokenView::RBracket)
    } else if c == '{' {
        Some(TokenView::LBrace)
    } else if c == '}' {
        Some(TokenView::RBrace)
    } else if c == '.' {
        Some(TokenView::Dot)
    } else if c == ',' {
        Some(TokenView::Comma)
    } else if c == '*' {
        Some(TokenView::Asterisk)
    } else if c == ';' {
        Some(TokenView::Semicolon)
    } else if c == '=' {
        Some(TokenView::Equals)
    } else {
        None
    }
}

/// What a character stands for after a backslash inside a string literal.
pub open spec fn unescape(c: char) -> char {
    if c == 'n' {
        '\n'
    } else if c == 't' {
        '\t'
    } else if c == 'r' {
        '\r'
    } else {
        c
    }
}

/// The position just past the string literal whose body starts at `i`: past
/// its closing quote, or the end of `s` where the literal is never closed.
pub open spec fn string_end(s: Seq<Symbol>, i: int) -> int
    decreases s.len() - i,
{
    if i < 0 || i >= s.len() {
        i
    } else if s[i].c == '"' {
        i + 1
    } else if s[i].c == '\\' {
        if i + 1 < s.len() {
            string_end(s, i + 2)
        } else {
            i + 1
        }
    } else {
        string_end(s, i + 1)
    }
}

/// The text of the string literal whose body starts at `i`, escapes resolved.
pub open spec fn string_text(s: Seq<Symbol>, i: int) -> Seq<char>
    decreases s.len() - i,
{
    if i < 0 || i >= s.len() {
        seq![]
    } else if s[i].c == '"' {
        seq![]
    } else if s[i].c == '\\' {
        if i + 1 < s.len() {
            seq![unescape(s[i + 1].c)] + string_text(s, i + 2)
        } else {
            seq![]
        }
    } else {
        seq![s[i].c] + string_text(s, i + 1)
    }
}

/// The token that a word makes: its keyword, or an identifier.
pub open spec fn word_token(word: Seq<char>) -> TokenView {
    if word == "select"@ {
        TokenView::Select
    } else if word == "where"@ {
        TokenView::Where
    } else if word == "create"@ {
        TokenView::Create
    } else if word == "like"@ {
        TokenView::Like
    } else if word == "link"@ {
        TokenView::Link
    } else if word == "from"@ {
        TokenView::From
    } else if word == "and"@ {
        TokenView::And
    } else if word == "or"@ {
        TokenView::Or
    } else {
        TokenView::Identifier(word)
    }
}

/// Whether the character at position `i` of `s` exists and is `c`.
pub open spec fn has_at(s: Seq<Symbol>, i: int, c: char) -> bool {
    0 <= i < s.len() && s[i].c == c
}

/// The numeric literal that starts with the digit at position `i`.
///
/// Digits, a dot and at least one more digit make a floating-point literal.
/// Otherwise the digits make an integer literal, and a dot that follows is
/// left for the next token. An integer too large for `usize` is malformed: it
/// is read as a whole and becomes `Unknown` with its first digit.
pub open spec fn number_at(s: Seq<Symbol>, i: int) -> Lexeme {
    let int_end = run_end(s, i + 1, CharClass::Digit);
    if has_at(s, int_end, '.') && int_end + 1 < s.len() && is_digit(s[int_end + 1].c) {
        let end = run_end(s, int_end + 2, CharClass::Digit);
        Lexeme { token: TokenView::FloatLiteral(chars_of(s.subrange(i, end))), start: i, end }
    } else {
        let value = digits_value(chars_of(s.subrange(i, int_end)));
        if value <= usize::MAX {
            Lexeme { token: TokenView::IntLiteral(value), start: i, end: int_end }
        } else {
            Lexeme { token: TokenView::Unknown(s[i].c), start: i, end: int_end }
        }
    }
}

/// Whether a rule other than that for white space claims the character of
/// `first` as a first character.
pub open spec fn starts_token(first: Symbol) -> bool {
    ||| punctuation(first.c) is Some
    ||| first.c == '"'
    ||| first.c == '-'
    ||| first.c == '<'
    ||| first.c == '>'
    ||| first.alphabetic
    ||| is_digit(first.c)
}

/// Whether the scanner passes over the character of `first` as white space.
pub open spec fn is_skipped(first: Symbol) -> bool {
    !starts_token(first) && first.whitespace
}

/// The lexeme that starts at position `i`, which holds a character that is
/// not skipped.
pub open spec fn lexeme_at(s: Seq<Symbol>, i: int) -> Lexeme
    recommends
        0 <= i < s.len(),
        !is_skipped(s[i]),
{
    let c = s[i].c;
    if punctuation(c) is Some {
        Lexeme { token: punctuation(c)->0, start: i, end: i + 1 }
    } else if c == '"' {
        Lexeme {
            token: TokenView::StringLiteral(string_text(s, i + 1)),
            start: i,
            end: string_end(s, i + 1),
        }
    } else if c == '-' {
        if has_at(s, i + 1, '>') {
            Lexeme { token: TokenView::ArrowRight, start: i, end: i + 2 }
        } else {
            Lexeme { token: TokenView::Unknown('-'), start: i, end: i + 1 }
        }
    } else if c == '<' {
        if has_at(s, i + 1, '=') {
            Lexeme { token: TokenView::SmallerThanOrEquals, start: i, end: i + 2 }
        } else {
            Lexeme { token: TokenView::SmallerThan, start: i, end: i + 1 }
        }
    } else if c == '>' {
        if has_at(s, i + 1, '=') {
            Lexeme { token: TokenView::GreaterThanOrEquals, start: i, end: i + 2 }
        } else {
            Lexeme { token: TokenView::GreaterThan, start: i, end: i + 1 }
        }
    } else if s[i].alphabetic {
        let end = run_end(s, i + 1, CharClass::Word);
        Lexeme { token: word_token(chars_of(s.subrange(i, end))), start: i, end }
    } else if is_digit(c) {
        number_at(s, i)
    } else {
        Lexeme { token: TokenView::Unknown(c), start: i, end: i + 1 }
    }
}

/// The next lexeme at or after position `i`, if any: white space is passed
/// over, and `None` means that only white space is left.
pub open spec fn scan(s: Seq<Symbol>, i: int) -> Option<Lexeme>
    decreases s.len() - i,
{
    if i < 0 || i >= s.len() {
        None
    } else if is_skipped(s[i]) {
        proof {
            lemma_run_end(s, i + 1, CharClass::Blank);
        }
        scan(s, run_end(s, i + 1, CharClass::Blank))
    } else {
        Some(lexeme_at(s, i))
    }
}

/// All the lexemes at or after position `i`, in the order of the text.
pub open spec fn lex(s: Seq<Symbol>, i: int) -> Seq<Lexeme>
    decreases s.len() - i,
{
    match scan(s, i) {
        None => seq![],
        Some(lexeme) => {
            proof {
                lemma_scan(s, i);
            }
            seq![lexeme] + lex(s, lexeme.end)
        },
    }
}

/// The tokens at or after position `i`, in the order of the text.
pub open spec fn tokens(s: Seq<Symbol>, i: int) -> Seq<TokenView> {
    lex(s, i).map_values(|lexeme: Lexeme| lexeme.token)
}

/// Whether `token` and `span` are the token of `lexeme` and the byte offsets
/// of its two ends in the UTF-8 encoding of `s`.
pub open spec fn renders(s: Seq<Symbol>, lexeme: Lexeme, token: Token, span: Span) -> bool {
    &&& token@ == lexeme.token
    &&& span.0 == byte_offset(chars_of(s), lexeme.start)
    &&& span.1 == byte_offset(chars_of(s), lexeme.end)
}

/// A string literal ends within the text, and after its body has started.
pub proof fn lemma_string_end(s: Seq<Symbol>, i: int)
    requires
        0 <= i <= s.len(),
    ensures
        i <= string_end(s, i) <= s.len(),
        i < s.len() ==> i < string_end(s, i),
    decreases s.len() - i,
{
    if i < s.len() && s[i].c != '"' {
        if s[i].c == '\\' {
            if i + 1 < s.len() {
                lemma_string_end(s, i + 2);
            }
        } else {
            lemma_string_end(s, i + 1);
        }
    }
}

/// A lexeme is not empty and lies within the text.
pub proof fn lemma_lexeme_at(s: Seq<Symbol>, i: int)
    requires
        0 <= i < s.len(),
    ensures
        lexeme_at(s, i).start == i,
        i < lexeme_at(s, i).end <= s.len(),
{
    lemma_string_end(s, i + 1);
    lemma_run_end(s, i + 1, CharClass::Word);
    let int_end = run_end(s, i + 1, CharClass::Digit);
    lemma_run_end(s, i + 1, CharClass::Digit);
    if int_end + 2 <= s.len() {
        lemma_run_end(s, int_end + 2, CharClass::Digit);
    }
}

/// Where `scan` finds a lexeme: only white space lies before it, and it
/// starts with a character that is not skipped. Where it finds none, only
/// white space is left.
pub proof fn lemma_scan(s: Seq<Symbol>, i: int)
    requires
        0 <= i <= s.len(),
    ensures
        match scan(s, i) {
            Some(lexeme) => {
                &&& i <= lexeme.start < lexeme.end <= s.len()
                &&& !is_skipped(s[lexeme.start])
                &&& lexeme == lexeme_at(s, lexeme.start)
                &&& forall|k: int| i <= k < lexeme.start ==> (#[trigger] s[k]).whitespace
            },
            None => forall|k: int| i <= k < s.len() ==> (#[trigger] s[k]).whitespace,
        },
    decreases s.len() - i,
{
    if i < s.len() {
        if is_skipped(s[i]) {
            lemma_run_end(s, i + 1, CharClass::Blank);
            lemma_scan(s, run_end(s, i + 1, CharClass::Blank));
        } else {
            lemma_lexeme_at(s, i);
        }
    }
}

/// The tokens at a position are the token of the lexeme that `scan` finds,
/// then the tokens at its end.
pub proof fn lemma_tokens(s: Seq<Symbol>, i: int)
    requires
        0 <= i <= s.len(),
    ensures
        match scan(s, i) {
            Some(lexeme) => {
                &&& i < lexeme.end <= s.len()
                &&& tokens(s, i).len() > 0
                &&& tokens(s, i)[0] == lexeme.token
                &&& tokens(s, i).skip(1) == tokens(s, lexeme.end)
            },
            None => tokens(s, i) == Seq::<TokenView>::empty(),
        },
        tokens(s, s.len() as int) == Seq::<TokenView>::empty(),
{
    lemma_scan(s, i);
    match scan(s, i) {
        Some(lexeme) => {
            assert(lex(s, i) == seq![lexeme] + lex(s, lexeme.end));
            assert(lex(s, i).skip(1) == lex(s, lexeme.end));
            assert(tokens(s, i).skip(1) == tokens(s, lexeme.end));
        },
        None => {},
    }
}

} // verus!

//! The scanner: reads a text one token at a time.

use crate::scan::{
    lemma_scan, lex, number_at, renders, scan, string_end, string_text, word_token, Lexeme,
};
use crate::span::Span;
use crate::text::{
    byte_offset, chars_of, classify, digit_value, digits_value, is_digit,
    lemma_byte_offset_monotone, lemma_byte_offset_step, lemma_chars_of_part, lemma_run_end,
    lemma_run_end_from_inside, push_char, run_end, same_text, symbol_of, symbols_of, utf8_width,
    utf8_width_of, CharClass, Symbol,
};
use crate::token::Token;
use vstd::prelude::*;
use vstd::string::*;
use vstd::utf8::encode_utf8;

verus! {

/// A forward-only cursor over the characters of a text, each of which is
/// kept with the classes that it is in.
pub struct Lexer {
    chars: Vec<Symbol>,
    place: Place,
}

/// A place in a text: the number of characters before it, and the number of
/// bytes that they take in UTF-8.
#[derive(Clone, Copy)]
struct Place {
    index: usize,
    position: usize,
}

impl Lexer {
    /// The text that is read.
    pub closed spec fn text(&self) -> Seq<Symbol> {
        self.chars@
    }

    /// The position of the next character to read.
    pub closed spec fn cursor(&self) -> int {
        self.place.index as int
    }

    /// The byte offset of the next character to read.
    pub closed spec fn offset(&self) -> int {
        self.place.position as int
    }

    /// The cursor lies within the text, the byte offset is that of the cursor,
    /// and the text in UTF-8 is no longer than a `usize` can say.
    #[verifier::type_invariant]
    pub open spec fn wf(&self) -> bool {
        &&& 0 <= self.cursor() <= self.text().len()
        &&& self.offset() == byte_offset(chars_of(self.text()), self.cursor())
        &&& encode_utf8(chars_of(self.text())).len() <= usize::MAX
    }

    /// The character `n` places after the cursor, if the text reaches that far.
    pub open spec fn ahead(&self, n: int) -> Option<Symbol> {
        if 0 <= self.cursor() + n < self.text().len() {
            Some(self.text()[self.cursor() + n])
        } else {
            None
        }
    }

    /// The lexemes that are still to come.
    pub open spec fn remaining(&self) -> Seq<Lexeme> {
        lex(self.text(), self.cursor())
    }

    /// Whether `next` is what a scanner that stood at `cursor` in `s` hands out
    /// next, and `self` that scanner afterwards.
    pub open spec fn stepped(
        &self,
        s: Seq<Symbol>,
        cursor: int,
        next: Option<(Token, Span)>,
    ) -> bool {
        &&& self.text() == s
        &&& match scan(s, cursor) {
            Some(lexeme) => {
                &&& next matches Some((token, span))
                &&& renders(s, lexeme, token, span)
                &&& self.cursor() == lexeme.end
            },
            None => next is None && self.cursor() == s.len(),
        }
    }

    /// A scanner at the start of `input`, with each character looked up in the
    /// Unicode tables.
    pub fn new(input: &str) -> (lexer: Self)
        ensures
            lexer.text() == symbols_of(input@),
            lexer.cursor() == 0,
    {
        let mut chars: Vec<Symbol> = Vec::new();
        let all = input.chars();
        for c in it: all
            invariant
                chars@ == symbols_of(it.seq().take(it.index() as int)),
                it.seq() == input@,
        {
            proof {
                let read = it.seq().take(it.index() as int);
                assert(it.seq().take(it.index() + 1) == read.push(c));
                assert(symbols_of(read.push(c)) == symbols_of(read).push(symbol_of(c)));
            }
            chars.push(classify(c));
        }
        let length = input.as_bytes().len();
        proof {
            assert(input@.take(input@.len() as int) == input@);
            assert(chars_of(symbols_of(input@)) == input@);
            assert(encode_utf8(input@).len() == length);
            assert(input@.take(0) == Seq::<char>::empty());
        }
        Self { chars, place: Place { index: 0, position: 0 } }
    }

    /// A scanner at the start of the text that `symbols` holds, with the
    /// classes of each character as given. There is none where the text in
    /// UTF-8 is longer than a `usize` can say.
    pub fn from_symbols(symbols: Vec<Symbol>) -> (lexer: Option<Self>)
        ensures
            match lexer {
                Some(made) => made.text() == symbols@ && made.cursor() == 0,
                None => encode_utf8(chars_of(symbols@)).len() > usize::MAX,
            },
    {
        let ghost text = chars_of(symbols@);
        let mut length: usize = 0;
        let mut k: usize = 0;
        while k < symbols.len()
            invariant
                k <= symbols@.len(),
                text == chars_of(symbols@),
                length == byte_offset(text, k as int),
            decreases symbols@.len() - k,
        {
            proof {
                lemma_byte_offset_step(text, k as int);
                lemma_byte_offset_monotone(text, k + 1, text.len() as int);
                assert(text.take(text.len() as int) == text);
            }
            length = match length.checked_add(utf8_width(symbols[k].c)) {
                Some(sum) => sum,
                None => {
                    return None;
                },
            };
            k = k + 1;
        }
        proof {
            assert(text.take(text.len() as int) == text);
            assert(text.take(0) == Seq::<char>::empty());
        }
        Some(Self { chars: symbols, place: Place { index: 0, position: 0 } })
    }

    /// Reads the next token and moves past it. `None` means that the text is
    /// exhausted; the cursor then stands at its end.
    pub fn next(&mut self) -> (next: Option<(Token, Span)>)
        ensures
            final(self).stepped(old(self).text(), old(self).cursor(), next),
    {
        proof {
            use_type_invariant(&*self);
        }
        self.next_token()
    }

    fn next_token(&mut self) -> (next: Option<(Token, Span)>)
        requires
            old(self).wf(),
        ensures
            final(self).wf(),
            final(self).stepped(old(self).text(), old(self).cursor(), next),
        decreases old(self).text().len() - old(self).cursor(),
    {
        let ghost s = self.text();
        let ghost i = self.cursor();
        let current_position = self.place.position;
        let first = self.place.index;
        let symbol = match self.next_char() {
            Some(symbol) => symbol,
            None => {
                return None;
            },
        };
        let c = symbol.c;
        proof {
            lemma_byte_offset_step(chars_of(s), i);
        }
        match c {
            ':' => self.emit_token(current_position, Token::Colon),
            '(' => self.emit_token(current_position, Token::LParen),
            ')' => self.emit_token(current_position, Token::RParen),
            '[' => self.emit_token(current_position, Token::LBracket),
            ']' => self.emit_token(current_position, Token::RBracket),
            '{' => self.emit_token(current_position, Token::LBrace),
            '}' => self.emit_token(current_position, Token::RBrace),
            '.' => self.emit_token(current_position, Token::Dot),
            ',' => self.emit_token(current_position, Token::Comma),
            '*' => self.emit_token(current_position, Token::Asterisk),
            ';' => self.emit_token(current_position, Token::Semicolon),
            '"' => {
                let string = self.string_literal();
                self.emit_token(current_position, Token::StringLiteral(string))
            },
            '-' => {
                if self.next_char_if(CharClass::Exactly('>')).is_some() {
                    return self.emit_token(current_position, Token::ArrowRight);
                }
                self.emit_token(current_position, Token::Unknown('-'))
            },
            '<' => {
                if self.next_char_if(CharClass::Exactly('=')).is_some() {
                    self.emit_token(current_position, Token::SmallerThanOrEquals)
                } else {
                    self.emit_token(current_position, Token::SmallerThan)
                }
            },
            '>' => {
                if self.next_char_if(CharClass::Exactly('=')).is_some() {
                    self.emit_token(current_position, Token::GreaterThanOrEquals)
                } else {
                    self.emit_token(current_position, Token::GreaterThan)
                }
            },
            '=' => self.emit_token(current_position, Token::Equals),
            _ => {
                if symbol.alphabetic {
                    self.take_while(CharClass::Word);
                    proof {
                        lemma_run_end(s, i + 1, CharClass::Word);
                    }
                    let token = self.word(first);
                    self.emit_token(current_position, token)
                } else if CharClass::Digit.test(symbol) {
                    self.take_while(CharClass::Digit);
                    proof {
                        lemma_run_end(s, i + 1, CharClass::Digit);
                    }
                    let token = self.number(first);
                    self.emit_token(current_position, token)
                } else if symbol.whitespace {
                    self.take_while(CharClass::Blank);
                    proof {
                        lemma_run_end(s, i + 1, CharClass::Blank);
                    }
                    self.next_token()
                } else {
                    self.emit_token(current_position, Token::Unknown(c))
                }
            },
        }
    }

    /// Reads the next token and leaves the cursor where it was.
    pub fn peek_token(&mut self) -> (next: Option<(Token, Span)>)
        ensures
            final(self).text() == old(self).text(),
            final(self).cursor() == old(self).cursor(),
            match scan(old(self).text(), old(self).cursor()) {
                Some(lexeme) => next matches Some((token, span)) && renders(
                    old(self).text(),
                    lexeme,
                    token,
                    span,
                ),
                None => next is None,
            },
    {
        proof {
            use_type_invariant(&*self);
        }
        let place = self.place;
        let next = self.next_token();
        self.place = place;
        next
    }

    /// Reads all the tokens that are left.
    pub fn collect(&mut self) -> (all: Vec<(Token, Span)>)
        ensures
            final(self).text() == old(self).text(),
            final(self).cursor() == old(self).text().len(),
            all@.len() == old(self).remaining().len(),
            forall|k: int|
                0 <= k < all@.len() ==> renders(
                    old(self).text(),
                    old(self).remaining()[k],
                    (#[trigger] all@[k]).0,
                    all@[k].1,
                ),
    {
        proof {
            use_type_invariant(&*self);
        }
        let mut all: Vec<(Token, Span)> = Vec::new();
        let ghost s = self.text();
        let ghost lexemes = self.remaining();
        loop
            invariant
                self.wf(),
                self.text() == s,
                lexemes == old(self).remaining(),
                s == old(self).text(),
                all@.len() <= lexemes.len(),
                self.remaining() == lexemes.skip(all@.len() as int),
                forall|k: int|
                    0 <= k < all@.len() ==> renders(
                        s,
                        lexemes[k],
                        (#[trigger] all@[k]).0,
                        all@[k].1,
                    ),
            ensures
                self.cursor() == s.len(),
                all@.len() == lexemes.len(),
            decreases s.len() - self.cursor(),
        {
            let ghost cursor = self.cursor();
            let ghost before = self.remaining();
            proof {
                lemma_scan(s, cursor);
            }
            match self.next_token() {
                Some(pair) => {
                    proof {
                        let lexeme = scan(s, cursor)->0;
                        assert(before == seq![lexeme] + lex(s, lexeme.end));
                        assert(before[0] == lexeme);
                        assert(lexemes[all@.len() as int] == before[0]);
                        assert(before.skip(1) == lex(s, lexeme.end));
                        assert(lexemes.skip(all@.len() as int).skip(1) == lexemes.skip(
                            all@.len() as int + 1,
                        ));
                    }
                    all.push(pair);
                },
                None => {
                    assert(before.len() == 0);
                    break ;
                },
            }
        }
        all
    }

    fn emit_token(&self, start: usize, token: Token) -> (pair: Option<(Token, Span)>)
        ensures
            pair == Some((token, Span(start, self.place.position))),
    {
        Some((token, Span::new(start, self.place.position)))
    }

    fn next_char(&mut self) -> (next: Option<Symbol>)
        requires
            old(self).wf(),
        ensures
            final(self).wf(),
            final(self).text() == old(self).text(),
            next == old(self).ahead(0),
            final(self).cursor() == old(self).cursor() + if next is Some { 1int } else { 0 },
    {
        self.next_char_if(CharClass::Any)
    }

    /// Reads the next character if it is in `class`.
    fn next_char_if(&mut self, class: CharClass) -> (next: Option<Symbol>)
        requires
            old(self).wf(),
        ensures
            final(self).wf(),
            final(self).text() == old(self).text(),
            next == match old(self).ahead(0) {
                Some(symbol) => if class.admits(symbol) { Some(symbol) } else { None },
                None => None,
            },
            final(self).cursor() == old(self).cursor() + if next is Some { 1int } else { 0 },
    {
        if self.place.index < self.chars.len() {
            let symbol = self.chars[self.place.index];
            if class.test(symbol) {
                proof {
                    let s = chars_of(self.chars@);
                    lemma_byte_offset_step(s, self.place.index as int);
                    lemma_byte_offset_monotone(s, self.place.index + 1, s.len() as int);
                    assert(s.take(s.len() as int) == s);
                }
                self.place = Place {
                    index: self.place.index + 1,
                    position: self.place.position + utf8_width(symbol.c),
                };
                return Some(symbol);
            }
        }
        None
    }

    fn peek_nth(&self, n: usize) -> (symbol: Option<Symbol>)
        requires
            self.wf(),
        ensures
            symbol == self.ahead(n as int),
    {
        if n < self.chars.len() - self.place.index {
            Some(self.chars[self.place.index + n])
        } else {
            None
        }
    }

    /// Reads on to the end of the run of `class` that starts at the cursor.
    fn take_while(&mut self, class: CharClass)
        requires
            old(self).wf(),
        ensures
            final(self).wf(),
            final(self).text() == old(self).text(),
            final(self).cursor() == run_end(old(self).text(), old(self).cursor(), class),
    {
        let ghost s = self.text();
        let ghost end = run_end(s, self.cursor(), class);
        loop
            invariant
                self.wf(),
                self.text() == s,
                run_end(s, self.cursor(), class) == end,
            ensures
                self.cursor() == end,
            decreases s.len() - self.cursor(),
        {
            if self.next_char_if(class).is_none() {
                break ;
            }
        }
    }

    /// Reads the body of a string literal, the opening quote of which has been
    /// read, and the closing quote if there is one.
    fn string_literal(&mut self) -> (string: String)
        requires
            old(self).wf(),
        ensures
            final(self).wf(),
            final(self).text() == old(self).text(),
            final(self).cursor() == string_end(old(self).text(), old(self).cursor()),
            string@ == string_text(old(self).text(), old(self).cursor()),
    {
        let ghost s = self.text();
        let ghost start = self.cursor();
        let mut string = String::new();
        loop
            invariant_except_break
                string_end(s, self.cursor()) == string_end(s, start),
                string@ + string_text(s, self.cursor()) == string_text(s, start),
            invariant
                self.wf(),
                self.text() == s,
            ensures
                self.cursor() == string_end(s, start),
                string@ == string_text(s, start),
            decreases s.len() - self.cursor(),
        {
            let ghost before = string@;
            let ghost rest = string_text(s, self.cursor());
            match self.next_char() {
                None => {
                    assert(before + rest == before);
                    break ;
                },
                Some(symbol) => {
                    let c = symbol.c;
                    if c == '"' {
                        assert(before + rest == before);
                        break ;
                    } else if c == '\\' {
                        match self.next_char() {
                            Some(escaped) => {
                                let plain = match escaped.c {
                                    'n' => '\n',
                                    't' => '\t',
                                    'r' => '\r',
                                    other => other,
                                };
                                push_char(&mut string, plain);
                                assert(before + (seq![plain] + string_text(s, self.cursor()))
                                    == before.push(plain) + string_text(s, self.cursor()));
                            },
                            None => {
                                assert(before + rest == before);
                            },
                        }
                    } else {
                        push_char(&mut string, c);
                        assert(before + (seq![c] + string_text(s, self.cursor())) == before.push(c)
                            + string_text(s, self.cursor()));
                    }
                },
            }
        }
        string
    }

    /// The characters from position `from` up to the cursor, as a string.
    fn text_from(&self, from: usize) -> (text: String)
        requires
            self.wf(),
            from <= self.cursor(),
        ensures
            text@ == chars_of(self.text().subrange(from as int, self.cursor())),
    {
        let mut text = String::new();
        let mut k = from;
        while k < self.place.index
            invariant
                from <= k <= self.place.index <= self.chars.len(),
                text@ == chars_of(self.chars@.subrange(from as int, k as int)),
            decreases self.place.index - k,
        {
            push_char(&mut text, self.chars[k].c);
            k = k + 1;
            assert(chars_of(self.chars@.subrange(from as int, k as int)) == chars_of(
                self.chars@.subrange(from as int, k - 1),
            ).push(self.chars@[k - 1].c));
        }
        text
    }

    /// The token of the word that has been read from position `from` up to the
    /// cursor.
    fn word(&self, from: usize) -> (token: Token)
        requires
            self.wf(),
            from <= self.cursor(),
        ensures
            token@ == word_token(chars_of(self.text().subrange(from as int, self.cursor()))),
    {
        let identifier = self.text_from(from);
        let word = identifier.as_str();
        if same_text(word, "select") {
            Token::Select
        } else if same_text(word, "where") {
            Token::Where
        } else if same_text(word, "create") {
            Token::Create
        } else if same_text(word, "like") {
            Token::Like
        } else if same_text(word, "link") {
            Token::Link
        } else if same_text(word, "from") {
            Token::From
        } else if same_text(word, "and") {
            Token::And
        } else if same_text(word, "or") {
            Token::Or
        } else {
            Token::Identifier(identifier)
        }
    }

    /// The number that the digits from position `from` up to position `to`
    /// denote, if it fits.
    fn digits_between(&self, from: usize, to: usize) -> (value: Option<usize>)
        requires
            from <= to <= self.text().len(),
            forall|k: int| from <= k < to ==> is_digit((#[trigger] self.text()[k]).c),
        ensures
            value == if digits_value(chars_of(self.text().subrange(from as int, to as int)))
                <= usize::MAX {
                Some(digits_value(chars_of(self.text().subrange(from as int, to as int))) as usize)
            } else {
                None
            },
    {
        let ghost s = chars_of(self.chars@);
        proof {
            lemma_chars_of_part(self.chars@, from as int, to as int);
        }
        let mut value: usize = 0;
        let mut k = from;
        while k < to
            invariant
                s == chars_of(self.chars@),
                s.subrange(from as int, to as int) == chars_of(
                    self.chars@.subrange(from as int, to as int),
                ),
                from <= k <= to <= s.len(),
                forall|j: int| from <= j < to ==> is_digit(#[trigger] s[j]),
                value == digits_value(s.subrange(from as int, k as int)),
            decreases to - k,
        {
            assert(s[k as int] == self.chars@[k as int].c);
            let digit = (self.chars[k].c as u32 - '0' as u32) as usize;
            proof {
                assert(s.subrange(from as int, k + 1).drop_last() == s.subrange(
                    from as int,
                    k as int,
                ));
                assert(digit == digit_value(s[k as int]));
                lemma_digits_grow(s, from as int, k + 1, to as int);
            }
            value = match value.checked_mul(10) {
                Some(tens) => match tens.checked_add(digit) {
                    Some(sum) => sum,
                    None => {
                        return None;
                    },
                },
                None => {
                    return None;
                },
            };
            k = k + 1;
        }
        Some(value)
    }

    /// The token of the numeric literal that starts at position `from`, the
    /// leading digits of which have been read. Reads the fraction if there is
    /// one.
    fn number(&mut self, from: usize) -> (token: Token)
        requires
            old(self).wf(),
            from < old(self).text().len(),
            is_digit(old(self).text()[from as int].c),
            old(self).cursor() == run_end(old(self).text(), from + 1, CharClass::Digit),
        ensures
            final(self).wf(),
            final(self).text() == old(self).text(),
            token@ == number_at(old(self).text(), from as int).token,
            final(self).cursor() == number_at(old(self).text(), from as int).end,
    {
        let ghost s = self.text();
        let int_end = self.place.index;
        proof {
            lemma_run_end(s, from + 1, CharClass::Digit);
        }
        let is_float = match self.peek_nth(0) {
            Some(dot) => dot.c == '.' && match self.peek_nth(1) {
                Some(digit) => CharClass::Digit.test(digit),
                None => false,
            },
            None => false,
        };
        if is_float {
            self.next_char();
            self.take_while(CharClass::Digit);
            proof {
                lemma_run_end(s, int_end + 1, CharClass::Digit);
                lemma_run_end_from_inside(s, int_end + 1, int_end + 2, CharClass::Digit);
            }
            Token::FloatLiteral(self.text_from(from))
        } else {
            match self.digits_between(from, int_end) {
                Some(value) => Token::IntLiteral(value),
                None => Token::Unknown(self.chars[from].c),
            }
        }
    }
}

/// The value of a run of digits is at least that of each of its beginnings.
proof fn lemma_digits_grow(s: Seq<char>, from: int, k: int, to: int)
    requires
        0 <= from <= k <= to <= s.len(),
    ensures
        digits_value(s.subrange(from, k)) <= digits_value(s.subrange(from, to)),
    decreases to - k,
{
    if k < to {
        lemma_digits_grow(s, from, k, to - 1);
        assert(s.subrange(from, to).drop_last() == s.subrange(from, to - 1));
    }
}

} // verus!

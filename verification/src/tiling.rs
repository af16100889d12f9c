//! How the lexemes of a text lie in it: one after the other, with nothing but
//! white space between them, each holding exactly the characters that make
//! its token. And which tokens a text can hold at all.

use crate::scan::{
    has_at, is_skipped, lemma_lexeme_at, lemma_scan, lemma_string_end, lex, lexeme_at, number_at,
    punctuation, scan, string_end, string_text, tokens, word_token, Lexeme,
};
use crate::text::{
    byte_offset, chars_of, is_digit, is_whitespace, lemma_byte_offset_monotone,
    lemma_bytes_between, lemma_chars_of_part, lemma_run_end, run_end, symbols_of, CharClass,
    Symbol,
};
use crate::token::TokenView;
use vstd::prelude::*;
use vstd::utf8::encode_utf8;

verus! {

/// The position at which the white space before the lexeme `k` of `lexemes`
/// starts, where the first lexeme was looked for from position `from`.
pub open spec fn gap_start(lexemes: Seq<Lexeme>, from: int, k: int) -> int {
    if k == 0 {
        from
    } else {
        lexemes[k - 1].end
    }
}

/// The lexemes of a text follow one another without overlap, and what lies
/// before each of them, and after the last, is white space.
pub proof fn lemma_lexemes_tile(s: Seq<Symbol>, from: int)
    requires
        0 <= from <= s.len(),
    ensures
        forall|k: int|
            #![trigger lex(s, from)[k]]
            0 <= k < lex(s, from).len() ==> {
                let lexeme = lex(s, from)[k];
                let gap = gap_start(lex(s, from), from, k);
                &&& from <= gap <= lexeme.start < lexeme.end <= s.len()
                &&& lexeme == lexeme_at(s, lexeme.start)
                &&& !is_skipped(s[lexeme.start])
                &&& forall|j: int| gap <= j < lexeme.start ==> (#[trigger] s[j]).whitespace
            },
        forall|j: int|
            gap_start(lex(s, from), from, lex(s, from).len() as int) <= j < s.len()
                ==> (#[trigger] s[j]).whitespace,
        from <= gap_start(lex(s, from), from, lex(s, from).len() as int) <= s.len(),
    decreases s.len() - from,
{
    lemma_scan(s, from);
    match scan(s, from) {
        None => {},
        Some(first) => {
            let all = lex(s, from);
            let tail = lex(s, first.end);
            lemma_lexemes_tile(s, first.end);
            assert(all == seq![first] + tail);
            assert forall|k: int| #![trigger all[k]] 0 <= k < all.len() implies {
                let lexeme = all[k];
                let gap = gap_start(all, from, k);
                &&& from <= gap <= lexeme.start < lexeme.end <= s.len()
                &&& lexeme == lexeme_at(s, lexeme.start)
                &&& !is_skipped(s[lexeme.start])
                &&& forall|j: int| gap <= j < lexeme.start ==> (#[trigger] s[j]).whitespace
            } by {
                if k > 0 {
                    assert(all[k] == tail[k - 1]);
                    assert(gap_start(all, from, k) == gap_start(tail, first.end, k - 1)) by {
                        if k > 1 {
                            assert(all[k - 1] == tail[k - 2]);
                        }
                    }
                }
            }
            if tail.len() > 0 {
                assert(all[all.len() - 1] == tail[tail.len() - 1]);
            }
            assert(gap_start(all, from, all.len() as int) == gap_start(
                tail,
                first.end,
                tail.len() as int,
            ));
        },
    }
}

/// Within a part of a text, a run ends where it ends in the text, or where
/// the part ends if that comes first.
pub proof fn lemma_run_end_within(s: Seq<Symbol>, a: int, b: int, i: int, class: CharClass)
    requires
        0 <= a <= i <= b <= s.len(),
    ensures
        run_end(s.subrange(a, b), i - a, class) == if run_end(s, i, class) <= b {
            run_end(s, i, class) - a
        } else {
            b - a
        },
    decreases b - i,
{
    let part = s.subrange(a, b);
    lemma_run_end(s, i, class);
    if i < b {
        assert(part[i - a] == s[i]);
        if class.admits(s[i]) {
            lemma_run_end_within(s, a, b, i + 1, class);
        }
    }
}

/// A string literal read on its own is read as it is within the text.
pub proof fn lemma_string_within(s: Seq<Symbol>, a: int, i: int)
    requires
        0 <= a < i <= s.len(),
    ensures
        string_end(s.subrange(a, string_end(s, i)), i - a) == string_end(s, i) - a,
        string_text(s.subrange(a, string_end(s, i)), i - a) == string_text(s, i),
    decreases s.len() - i,
{
    let end = string_end(s, i);
    let part = s.subrange(a, end);
    lemma_string_end(s, i);
    if i < s.len() {
        assert(part[i - a] == s[i]);
        if s[i].c == '"' {
        } else if s[i].c == '\\' {
            if i + 1 < s.len() {
                lemma_string_end(s, i + 2);
                assert(part[i + 1 - a] == s[i + 1]);
                lemma_string_within(s, a, i + 2);
            }
        } else {
            lemma_string_within(s, a, i + 1);
        }
    }
}

/// The characters of a lexeme, scanned on their own, give the token of the
/// lexeme and nothing else.
pub proof fn lemma_lexeme_alone(s: Seq<Symbol>, start: int)
    requires
        0 <= start < s.len(),
        !is_skipped(s[start]),
    ensures
        ({
            let lexeme = lexeme_at(s, start);
            let part = s.subrange(start, lexeme.end);
            lex(part, 0) == seq![Lexeme { token: lexeme.token, start: 0, end: part.len() as int }]
        }),
{
    let lexeme = lexeme_at(s, start);
    let end = lexeme.end;
    lemma_lexeme_at(s, start);
    let part = s.subrange(start, end);
    let c = s[start].c;
    assert(part[0] == s[start]);
    assert(part.len() == end - start);
    let alone = lexeme_at(part, 0);
    assert(alone == Lexeme { token: lexeme.token, start: 0, end: part.len() as int }) by {
        if punctuation(c) is Some {
        } else if c == '"' {
            lemma_string_within(s, start, start + 1);
        } else if c == '-' || c == '<' || c == '>' {
            if end == start + 2 {
                assert(part[1] == s[start + 1]);
            }
        } else if s[start].alphabetic {
            lemma_run_end_within(s, start, end, start + 1, CharClass::Word);
            assert(part.subrange(0, part.len() as int) == part);
        } else if is_digit(c) {
            let int_end = run_end(s, start + 1, CharClass::Digit);
            lemma_run_end(s, start + 1, CharClass::Digit);
            lemma_run_end_within(s, start, end, start + 1, CharClass::Digit);
            if has_at(s, int_end, '.') && int_end + 1 < s.len() && is_digit(s[int_end + 1].c) {
                lemma_run_end(s, int_end + 2, CharClass::Digit);
                lemma_run_end_within(s, start, end, int_end + 2, CharClass::Digit);
                assert(part[int_end - start] == s[int_end]);
                assert(part[int_end + 1 - start] == s[int_end + 1]);
                assert(part.subrange(0, part.len() as int) == part);
                assert(number_at(part, 0) == alone);
            } else {
                assert(end == int_end);
                assert(!has_at(part, part.len() as int, '.'));
                assert(part.subrange(0, part.len() as int) == part);
                assert(s.subrange(start, int_end) == part);
                assert(number_at(part, 0) == alone);
            }
        } else {
        }
    }
    assert(scan(part, 0) == Some(alone));
    assert(scan(part, part.len() as int) == None::<Lexeme>);
    assert(lex(part, part.len() as int) == Seq::<Lexeme>::empty());
    assert(lex(part, 0) == seq![alone] + lex(part, alone.end));
}

/// What scanning makes of a text: its lexemes lie in it one after the other
/// and do not overlap; only white space lies before, between and after them;
/// the span of each, in bytes, cuts out of the text exactly the characters of
/// the lexeme; and those characters, scanned on their own, give its token
/// again.
pub proof fn lemma_spans_reproduce_lexemes(s: Seq<Symbol>, k: int)
    requires
        0 <= k < lex(s, 0).len(),
    ensures
        ({
            let lexeme = lex(s, 0)[k];
            let gap = gap_start(lex(s, 0), 0, k);
            let part = s.subrange(lexeme.start, lexeme.end);
            &&& 0 <= gap <= lexeme.start < lexeme.end <= s.len()
            &&& forall|j: int| gap <= j < lexeme.start ==> (#[trigger] s[j]).whitespace
            &&& byte_offset(chars_of(s), gap) <= byte_offset(chars_of(s), lexeme.start)
                < byte_offset(chars_of(s), lexeme.end) <= encode_utf8(chars_of(s)).len()
            &&& encode_utf8(chars_of(s)).subrange(
                byte_offset(chars_of(s), lexeme.start) as int,
                byte_offset(chars_of(s), lexeme.end) as int,
            ) == encode_utf8(chars_of(part))
            &&& lex(part, 0) == seq![
                Lexeme { token: lexeme.token, start: 0, end: part.len() as int },
            ]
        }),
{
    lemma_lexemes_tile(s, 0);
    let lexeme = lex(s, 0)[k];
    let gap = gap_start(lex(s, 0), 0, k);
    lemma_byte_offset_monotone(chars_of(s), gap, lexeme.start);
    lemma_byte_offset_monotone(chars_of(s), lexeme.start, lexeme.end);
    lemma_bytes_between(chars_of(s), lexeme.start, lexeme.end);
    lemma_chars_of_part(s, lexeme.start, lexeme.end);
    lemma_lexeme_alone(s, lexeme.start);
}

/// What scanning makes of a text whose characters are looked up in the
/// Unicode tables: the span of each lexeme, in bytes, cuts out of the text in
/// UTF-8 exactly the characters of the lexeme; those characters, scanned as
/// a text of their own, give the token of the lexeme and nothing else; and
/// only white space lies between the lexeme and the one before it.
pub proof fn lemma_text_spans(text: Seq<char>, k: int)
    requires
        0 <= k < lex(symbols_of(text), 0).len(),
    ensures
        ({
            let lexemes = lex(symbols_of(text), 0);
            let lexeme = lexemes[k];
            let gap = gap_start(lexemes, 0, k);
            let part = text.subrange(lexeme.start, lexeme.end);
            &&& 0 <= gap <= lexeme.start < lexeme.end <= text.len()
            &&& forall|j: int| gap <= j < lexeme.start ==> is_whitespace(#[trigger] text[j])
            &&& byte_offset(text, gap) <= byte_offset(text, lexeme.start) < byte_offset(
                text,
                lexeme.end,
            ) <= encode_utf8(text).len()
            &&& encode_utf8(text).subrange(
                byte_offset(text, lexeme.start) as int,
                byte_offset(text, lexeme.end) as int,
            ) == encode_utf8(part)
            &&& lex(symbols_of(part), 0) == seq![
                Lexeme { token: lexeme.token, start: 0, end: part.len() as int },
            ]
        }),
{
    let s = symbols_of(text);
    let lexeme = lex(s, 0)[k];
    let gap = gap_start(lex(s, 0), 0, k);
    lemma_spans_reproduce_lexemes(s, k);
    assert(chars_of(s) == text);
    assert forall|j: int| gap <= j < lexeme.start implies is_whitespace(#[trigger] text[j]) by {
        assert(s[j].whitespace);
    }
    let part = text.subrange(lexeme.start, lexeme.end);
    assert(s.subrange(lexeme.start, lexeme.end) == symbols_of(part));
    assert(chars_of(s.subrange(lexeme.start, lexeme.end)) == part);
}

/// After the last lexeme of a text only white space is left.
pub proof fn lemma_white_space_after_last(s: Seq<Symbol>)
    ensures
        ({
            let end = gap_start(lex(s, 0), 0, lex(s, 0).len() as int);
            &&& 0 <= end <= s.len()
            &&& forall|j: int| end <= j < s.len() ==> (#[trigger] s[j]).whitespace
        }),
{
    lemma_lexemes_tile(s, 0);
}

/// Whether `text` is one or more digits, a dot, and one or more digits.
pub open spec fn is_decimal(text: Seq<char>) -> bool {
    exists|dot: int|
        {
            &&& 0 < dot < text.len() - 1
            &&& #[trigger] text[dot] == '.'
            &&& forall|k: int| 0 <= k < text.len() && k != dot ==> is_digit(#[trigger] text[k])
        }
}

/// Whether `token` is one that scanning can give: not one of the two that no
/// rule produces; an identifier only if it is not empty and no keyword; an
/// integer only if it fits `usize`; a floating-point literal only with the
/// text of a decimal number.
pub open spec fn scannable(token: TokenView) -> bool {
    match token {
        TokenView::ArrowLeft => false,
        TokenView::NotEquals => false,
        TokenView::Identifier(name) => name.len() > 0 && word_token(name) == token,
        TokenView::IntLiteral(value) => value <= usize::MAX,
        TokenView::FloatLiteral(text) => is_decimal(text),
        _ => true,
    }
}

/// The token of every lexeme is one that scanning can give.
pub proof fn lemma_lexeme_scannable(s: Seq<Symbol>, start: int)
    requires
        0 <= start < s.len(),
    ensures
        scannable(lexeme_at(s, start).token),
{
    let lexeme = lexeme_at(s, start);
    let end = lexeme.end;
    lemma_lexeme_at(s, start);
    let part = chars_of(s.subrange(start, end));
    let c = s[start].c;
    if punctuation(c) is Some {
    } else if c == '"' {
    } else if c == '-' || c == '<' || c == '>' {
    } else if s[start].alphabetic {
    } else if is_digit(c) {
        let int_end = run_end(s, start + 1, CharClass::Digit);
        lemma_run_end(s, start + 1, CharClass::Digit);
        if has_at(s, int_end, '.') && int_end + 1 < s.len() && is_digit(s[int_end + 1].c) {
            lemma_run_end(s, int_end + 2, CharClass::Digit);
            let dot = int_end - start;
            assert(part[dot] == '.');
            assert forall|k: int| 0 <= k < part.len() && k != dot implies is_digit(
                #[trigger] part[k],
            ) by {
                assert(part[k] == s[start + k].c);
                assert(CharClass::Digit.admits(s[start + k]));
            }
        }
    } else {
    }
}

/// Every token of a text is one that scanning can give.
pub proof fn lemma_tokens_scannable(s: Seq<Symbol>, from: int)
    requires
        0 <= from <= s.len(),
    ensures
        forall|k: int| 0 <= k < tokens(s, from).len() ==> scannable(#[trigger] tokens(s, from)[k]),
{
    lemma_lexemes_tile(s, from);
    assert forall|k: int| 0 <= k < tokens(s, from).len() implies scannable(
        #[trigger] tokens(s, from)[k],
    ) by {
        let lexeme = lex(s, from)[k];
        lemma_lexeme_scannable(s, lexeme.start);
    }
}

} // verus!

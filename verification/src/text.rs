//! Characters as the scanner sees them: each with the classes that it is in,
//! the classes that the scanner reads runs of, and the byte offsets of
//! character positions in UTF-8 text.

use vstd::prelude::*;
use vstd::string::*;
use vstd::utf8::*;

verus! {

/// Whether `c` is alphabetic by `char::is_alphabetic`.
pub uninterp spec fn is_alphabetic(c: char) -> bool;

/// Whether `c` is alphabetic or numeric by `char::is_alphanumeric`.
pub uninterp spec fn is_alphanumeric(c: char) -> bool;

/// Whether `c` is white space by `char::is_whitespace`.
pub uninterp spec fn is_whitespace(c: char) -> bool;

/// Calls `char::is_alphabetic`, which looks the character up in the Unicode
/// tables that std carries. The contract only names that answer.
#[verifier::external_body]
pub(crate) fn char_is_alphabetic(c: char) -> (b: bool)
    ensures
        b == is_alphabetic(c),
{
    c.is_alphabetic()
}

/// Calls `char::is_alphanumeric`, which looks the character up in the Unicode
/// tables that std carries. The contract only names that answer.
#[verifier::external_body]
pub(crate) fn char_is_alphanumeric(c: char) -> (b: bool)
    ensures
        b == is_alphanumeric(c),
{
    c.is_alphanumeric()
}

/// Calls `char::is_whitespace`, which looks the character up in the Unicode
/// tables that std carries. The contract only names that answer.
#[verifier::external_body]
pub(crate) fn char_is_whitespace(c: char) -> (b: bool)
    ensures
        b == is_whitespace(c),
{
    c.is_whitespace()
}

/// Calls `String::push`, which appends one character to the end of the string.
#[verifier::external_body]
pub(crate) fn push_char(text: &mut String, c: char)
    ensures
        final(text)@ == old(text)@.push(c),
{
    text.push(c)
}

/// Whether `c` is one of the decimal digits `0` to `9`.
pub open spec fn is_digit(c: char) -> bool {
    '0' <= c <= '9'
}

/// The number that the decimal digit `c` stands for.
pub open spec fn digit_value(c: char) -> nat
    recommends
        is_digit(c),
{
    (c as u32 - '0' as u32) as nat
}

/// The number that a sequence of decimal digits denotes; the empty sequence
/// denotes zero.
pub open spec fn digits_value(digits: Seq<char>) -> nat
    decreases digits.len(),
{
    if digits.len() == 0 {
        0
    } else {
        digits_value(digits.drop_last()) * 10 + digit_value(digits.last())
    }
}

/// Whether the characters of `a` are those of `b`.
pub fn same_text(a: &str, b: &str) -> (same: bool)
    ensures
        same == (a@ == b@),
{
    let n = a.unicode_len();
    if n != b.unicode_len() {
        return false;
    }
    let mut k: usize = 0;
    while k < n
        invariant
            n == a@.len(),
            n == b@.len(),
            k <= n,
            forall|j: int| 0 <= j < k ==> a@[j] == b@[j],
        decreases n - k,
    {
        if a.get_char(k) != b.get_char(k) {
            return false;
        }
        k = k + 1;
    }
    assert(a@ =~= b@);
    true
}

/// A character together with what the Unicode tables say of it.
#[derive(Debug, Clone, Copy, PartialEq, Eq, Structural)]
pub struct Symbol {
    pub c: char,
    pub alphabetic: bool,
    pub alphanumeric: bool,
    pub whitespace: bool,
}

/// The symbol of `c`: the character with the answers of `char::is_alphabetic`,
/// `char::is_alphanumeric` and `char::is_whitespace`.
pub open spec fn symbol_of(c: char) -> Symbol {
    Symbol {
        c,
        alphabetic: is_alphabetic(c),
        alphanumeric: is_alphanumeric(c),
        whitespace: is_whitespace(c),
    }
}

/// The symbols of the characters of `text`.
pub open spec fn symbols_of(text: Seq<char>) -> Seq<Symbol> {
    text.map_values(|c: char| symbol_of(c))
}

/// The characters of `symbols`.
pub open spec fn chars_of(symbols: Seq<Symbol>) -> Seq<char> {
    symbols.map_values(|symbol: Symbol| symbol.c)
}

/// Looks `c` up in the Unicode tables.
pub fn classify(c: char) -> (symbol: Symbol)
    ensures
        symbol == symbol_of(c),
{
    Symbol {
        c,
        alphabetic: char_is_alphabetic(c),
        alphanumeric: char_is_alphanumeric(c),
        whitespace: char_is_whitespace(c),
    }
}

/// The characters of a part of a text are that part of its characters.
pub proof fn lemma_chars_of_part(s: Seq<Symbol>, i: int, j: int)
    requires
        0 <= i <= j <= s.len(),
    ensures
        chars_of(s.subrange(i, j)) == chars_of(s).subrange(i, j),
        chars_of(s.take(j)) == chars_of(s).take(j),
        chars_of(symbols_of(chars_of(s))) == chars_of(s),
{
}

/// A set of characters that the scanner tests single characters against.
#[derive(Debug, Clone, Copy, PartialEq, Eq, Structural)]
pub enum CharClass {
    /// Every character.
    Any,
    /// The one character given.
    Exactly(char),
    /// What may follow the first letter of a word: alphanumerics and `_`.
    Word,
    /// The decimal digits.
    Digit,
    /// White space.
    Blank,
}

impl CharClass {
    /// Whether the character of `symbol` is in the class.
    pub open spec fn admits(self, symbol: Symbol) -> bool {
        match self {
            CharClass::Any => true,
            CharClass::Exactly(wanted) => symbol.c == wanted,
            CharClass::Word => symbol.alphanumeric || symbol.c == '_',
            CharClass::Digit => is_digit(symbol.c),
            CharClass::Blank => symbol.whitespace,
        }
    }

    /// Tests whether the character of `symbol` is in the class.
    pub fn test(self, symbol: Symbol) -> (b: bool)
        ensures
            b == self.admits(symbol),
    {
        match self {
            CharClass::Any => true,
            CharClass::Exactly(wanted) => symbol.c == wanted,
            CharClass::Word => symbol.alphanumeric || symbol.c == '_',
            CharClass::Digit => '0' <= symbol.c && symbol.c <= '9',
            CharClass::Blank => symbol.whitespace,
        }
    }
}

/// The end of the run of `class` that starts at `i`: the first position at or
/// after `i` whose character is not in `class`, or the end of `s`.
pub open spec fn run_end(s: Seq<Symbol>, i: int, class: CharClass) -> int
    decreases s.len() - i,
{
    if 0 <= i < s.len() && class.admits(s[i]) {
        run_end(s, i + 1, class)
    } else {
        i
    }
}

/// A run ends within the text; it holds only characters of its class, and
/// the character after it, if there is one, is not of the class.
pub proof fn lemma_run_end(s: Seq<Symbol>, i: int, class: CharClass)
    requires
        0 <= i <= s.len(),
    ensures
        i <= run_end(s, i, class) <= s.len(),
        forall|k: int| i <= k < run_end(s, i, class) ==> class.admits(#[trigger] s[k]),
        run_end(s, i, class) < s.len() ==> !class.admits(s[run_end(s, i, class)]),
    decreases s.len() - i,
{
    if i < s.len() && class.admits(s[i]) {
        lemma_run_end(s, i + 1, class);
    }
}

/// A run is found by reading on from any position inside it.
pub proof fn lemma_run_end_from_inside(s: Seq<Symbol>, i: int, j: int, class: CharClass)
    requires
        0 <= i <= j <= s.len(),
        forall|k: int| i <= k < j ==> class.admits(#[trigger] s[k]),
    ensures
        run_end(s, i, class) == run_end(s, j, class),
    decreases j - i,
{
    if i < j {
        lemma_run_end_from_inside(s, i + 1, j, class);
    }
}

/// The number of bytes that the UTF-8 encoding of `c` takes.
pub open spec fn utf8_width_of(c: char) -> nat {
    encode_scalar(c as u32).len()
}

/// The number of bytes that the UTF-8 encoding of `c` takes: one to four.
pub fn utf8_width(c: char) -> (n: usize)
    ensures
        n == utf8_width_of(c),
        1 <= n <= 4,
{
    let v: u32 = c as u32;
    if v < 0x80 {
        1
    } else if v < 0x800 {
        2
    } else if v < 0x10000 {
        3
    } else {
        4
    }
}

/// The byte offset, in the UTF-8 encoding of `s`, at which the character at
/// position `i` starts. For `i == s.len()` it is the length of the encoding.
pub open spec fn byte_offset(s: Seq<char>, i: int) -> nat {
    encode_utf8(s.take(i)).len()
}

/// The encoding of two texts, one after the other, is the encoding of the
/// one followed by that of the other.
pub proof fn lemma_encode_concat(a: Seq<char>, b: Seq<char>)
    ensures
        encode_utf8(a + b) == encode_utf8(a) + encode_utf8(b),
    decreases a.len(),
{
    if a.len() == 0 {
        assert(a + b == b);
    } else {
        lemma_encode_concat(a.drop_first(), b);
        assert((a + b).drop_first() == a.drop_first() + b);
        assert((a + b)[0] == a[0]);
    }
}

/// The next character starts where this one starts, plus the width of this
/// one.
pub proof fn lemma_byte_offset_step(s: Seq<char>, i: int)
    requires
        0 <= i < s.len(),
    ensures
        byte_offset(s, i + 1) == byte_offset(s, i) + utf8_width_of(s[i]),
{
    let head = s.take(i);
    let one = seq![s[i]];
    assert(s.take(i + 1) == head + one);
    lemma_encode_concat(head, one);
    assert(one.drop_first() == Seq::<char>::empty());
    assert(encode_utf8(one) == encode_scalar(s[i] as u32) + encode_utf8(one.drop_first()));
    assert(encode_utf8(Seq::<char>::empty()) == Seq::<u8>::empty());
}

/// Later characters start at higher offsets, and the offsets of two
/// positions differ by the length of the encoding of what lies between.
pub proof fn lemma_byte_offset_monotone(s: Seq<char>, i: int, j: int)
    requires
        0 <= i <= j <= s.len(),
    ensures
        byte_offset(s, i) <= byte_offset(s, j),
        i < j ==> byte_offset(s, i) < byte_offset(s, j),
        byte_offset(s, j) - byte_offset(s, i) == encode_utf8(s.subrange(i, j)).len(),
    decreases j - i,
{
    if i < j {
        lemma_byte_offset_monotone(s, i, j - 1);
        lemma_byte_offset_step(s, j - 1);
        let body = s.subrange(i, j - 1);
        let one = seq![s[j - 1]];
        assert(s.subrange(i, j) == body + one);
        lemma_encode_concat(body, one);
        assert(one.drop_first() == Seq::<char>::empty());
        assert(encode_utf8(one) == encode_scalar(s[j - 1] as u32) + encode_utf8(one.drop_first()));
        assert(encode_utf8(Seq::<char>::empty()) == Seq::<u8>::empty());
    } else {
        assert(s.subrange(i, j) == Seq::<char>::empty());
    }
}

/// The bytes between the offsets of two character positions are the encoding
/// of the characters between the positions.
pub proof fn lemma_bytes_between(s: Seq<char>, i: int, j: int)
    requires
        0 <= i <= j <= s.len(),
    ensures
        byte_offset(s, i) <= byte_offset(s, j) <= encode_utf8(s).len(),
        encode_utf8(s).subrange(byte_offset(s, i) as int, byte_offset(s, j) as int) == encode_utf8(
            s.subrange(i, j),
        ),
{
    let a = s.take(i);
    let b = s.subrange(i, j);
    let c = s.subrange(j, s.len() as int);
    assert(s.take(j) == a + b);
    assert(s == s.take(j) + c);
    lemma_encode_concat(a, b);
    lemma_encode_concat(s.take(j), c);
    assert(encode_utf8(s).subrange(byte_offset(s, i) as int, byte_offset(s, j) as int)
        == encode_utf8(b));
}

} // verus!

use mql::lexer::Lexer;
use mql::span::Span;
use mql::text::{classify, same_text, utf8_width, CharClass, Symbol};
use mql::token::{Token, TokenKind};

fn tokens_of(text: &str) -> Vec<Token> {
    Lexer::new(text).collect().into_iter().map(|(token, _)| token).collect()
}

fn identifier(name: &str) -> Token {
    Token::Identifier(name.to_string())
}

#[test]
fn empty_text_has_no_tokens() {
    assert_eq!(Lexer::new("").next(), None);
    assert_eq!(tokens_of("  \t\r\n "), vec![]);
}

#[test]
fn punctuation_maps_to_its_tokens() {
    assert_eq!(
        tokens_of(": ( ) [ ] { } . , * ; ="),
        vec![
            Token::Colon,
            Token::LParen,
            Token::RParen,
            Token::LBracket,
            Token::RBracket,
            Token::LBrace,
            Token::RBrace,
            Token::Dot,
            Token::Comma,
            Token::Asterisk,
            Token::Semicolon,
            Token::Equals,
        ]
    );
}

#[test]
fn braces_are_a_distinct_pair() {
    assert_eq!(tokens_of("{}"), vec![Token::LBrace, Token::RBrace]);
    assert_ne!(Token::LBrace, Token::RBrace);
}

#[test]
fn comparison_operators_take_a_following_equals() {
    assert_eq!(
        tokens_of("< <= > >= ="),
        vec![
            Token::SmallerThan,
            Token::SmallerThanOrEquals,
            Token::GreaterThan,
            Token::GreaterThanOrEquals,
            Token::Equals,
        ]
    );
    assert_eq!(tokens_of("<=="), vec![Token::SmallerThanOrEquals, Token::Equals]);
    assert_eq!(tokens_of("=="), vec![Token::Equals, Token::Equals]);
}

#[test]
fn minus_is_an_arrow_only_before_greater_than() {
    assert_eq!(tokens_of("->"), vec![Token::ArrowRight]);
    assert_eq!(tokens_of("-"), vec![Token::Unknown('-')]);
    assert_eq!(tokens_of("- >"), vec![Token::Unknown('-'), Token::GreaterThan]);
    assert_eq!(tokens_of("-->"), vec![Token::Unknown('-'), Token::ArrowRight]);
}

#[test]
fn no_rule_scans_a_left_arrow_or_not_equals() {
    assert_eq!(tokens_of("<-"), vec![Token::SmallerThan, Token::Unknown('-')]);
    assert_eq!(tokens_of("!="), vec![Token::Unknown('!'), Token::Equals]);
}

#[test]
fn keywords_are_matched_exactly() {
    assert_eq!(
        tokens_of("select where create like link from and or"),
        vec![
            Token::Select,
            Token::Where,
            Token::Create,
            Token::Like,
            Token::Link,
            Token::From,
            Token::And,
            Token::Or,
        ]
    );
    assert_eq!(tokens_of("Select"), vec![identifier("Select")]);
    assert_eq!(tokens_of("selects"), vec![identifier("selects")]);
    assert_eq!(tokens_of("fro"), vec![identifier("fro")]);
    assert_eq!(tokens_of("or_"), vec![identifier("or_")]);
}

#[test]
fn identifiers_take_letters_digits_and_underscores() {
    assert_eq!(tokens_of("book_1x"), vec![identifier("book_1x")]);
    assert_eq!(tokens_of("a-b"), vec![identifier("a"), Token::Unknown('-'), identifier("b")]);
    assert_eq!(tokens_of("_a"), vec![Token::Unknown('_'), identifier("a")]);
    assert_eq!(
        tokens_of("h\u{e9}llo w\u{f6}rld"),
        vec![identifier("h\u{e9}llo"), identifier("w\u{f6}rld")]
    );
}

#[test]
fn numeric_boundary() {
    assert_eq!(tokens_of("3"), vec![Token::IntLiteral(3)]);
    assert_eq!(tokens_of("3.5"), vec![Token::FloatLiteral("3.5".to_string())]);
    assert_eq!(tokens_of("3."), vec![Token::IntLiteral(3), Token::Dot]);
}

#[test]
fn numbers_of_several_digits() {
    assert_eq!(tokens_of("0"), vec![Token::IntLiteral(0)]);
    assert_eq!(tokens_of("007"), vec![Token::IntLiteral(7)]);
    assert_eq!(tokens_of("223"), vec![Token::IntLiteral(223)]);
    assert_eq!(tokens_of("12.034"), vec![Token::FloatLiteral("12.034".to_string())]);
    assert_eq!(
        tokens_of("1.2.3"),
        vec![Token::FloatLiteral("1.2".to_string()), Token::Dot, Token::IntLiteral(3)]
    );
    assert_eq!(tokens_of("1.x"), vec![Token::IntLiteral(1), Token::Dot, identifier("x")]);
    assert_eq!(tokens_of(".5"), vec![Token::Dot, Token::IntLiteral(5)]);
    assert_eq!(tokens_of("12ab"), vec![Token::IntLiteral(12), identifier("ab")]);
}

#[test]
fn float_text_converts_to_its_number() {
    match tokens_of("3.25").pop() {
        Some(Token::FloatLiteral(text)) => assert_eq!(text.parse::<f64>(), Ok(3.25)),
        other => panic!("not a float: {:?}", other),
    }
}

#[test]
fn largest_integer_fits_and_the_next_does_not() {
    let largest = format!("{}", usize::MAX);
    assert_eq!(tokens_of(&largest), vec![Token::IntLiteral(usize::MAX)]);
    let too_large = format!("{}0", usize::MAX);
    let first = too_large.chars().next().unwrap();
    assert_eq!(tokens_of(&too_large), vec![Token::Unknown(first)]);
    let mut lexer = Lexer::new(&too_large);
    assert_eq!(lexer.next(), Some((Token::Unknown(first), Span::new(0, too_large.len()))));
    assert_eq!(lexer.next(), None);
}

#[test]
fn a_large_float_keeps_its_text() {
    let text = "99999999999999999999999999.5";
    assert_eq!(tokens_of(text), vec![Token::FloatLiteral(text.to_string())]);
}

#[test]
fn other_numerals_are_unknown_characters() {
    assert_eq!(tokens_of("\u{b2}"), vec![Token::Unknown('\u{b2}')]);
    assert_eq!(tokens_of("1\u{663}"), vec![Token::IntLiteral(1), Token::Unknown('\u{663}')]);
}

#[test]
fn string_literals_resolve_escapes() {
    assert_eq!(tokens_of("\"abc\""), vec![Token::StringLiteral("abc".to_string())]);
    assert_eq!(tokens_of("\"\""), vec![Token::StringLiteral(String::new())]);
    assert_eq!(
        tokens_of("\"a\\nb\\tc\\rd\\\\e\\\"f\""),
        vec![Token::StringLiteral("a\nb\tc\rd\\e\"f".to_string())]
    );
    assert_eq!(tokens_of("\"\\q\""), vec![Token::StringLiteral("q".to_string())]);
    assert_eq!(
        tokens_of("\"select * from\" x"),
        vec![Token::StringLiteral("select * from".to_string()), identifier("x")]
    );
}

#[test]
fn unterminated_strings_end_with_the_text() {
    assert_eq!(tokens_of("\"abc"), vec![Token::StringLiteral("abc".to_string())]);
    assert_eq!(tokens_of("\""), vec![Token::StringLiteral(String::new())]);
    assert_eq!(tokens_of("\"abc\\"), vec![Token::StringLiteral("abc".to_string())]);
    assert_eq!(tokens_of("\"abc\\\""), vec![Token::StringLiteral("abc\"".to_string())]);
}

#[test]
fn unknown_characters_carry_the_character() {
    assert_eq!(
        tokens_of("#foo;"),
        vec![Token::Unknown('#'), identifier("foo"), Token::Semicolon]
    );
    assert_eq!(tokens_of("&&"), vec![Token::Unknown('&'), Token::Unknown('&')]);
    assert_eq!(tokens_of("\u{1f600}"), vec![Token::Unknown('\u{1f600}')]);
}

#[test]
fn white_space_of_every_kind_is_skipped() {
    assert_eq!(
        tokens_of("\n a\t\u{a0}b\u{2003}\r\n"),
        vec![identifier("a"), identifier("b")]
    );
}

#[test]
fn spans_are_byte_offsets() {
    let all = Lexer::new("select  title").collect();
    assert_eq!(
        all,
        vec![(Token::Select, Span::new(0, 6)), (identifier("title"), Span::new(8, 13))]
    );
    let wide = Lexer::new("\u{e9}t\u{e9} \u{1f600}->x").collect();
    assert_eq!(
        wide,
        vec![
            (identifier("\u{e9}t\u{e9}"), Span::new(0, 5)),
            (Token::Unknown('\u{1f600}'), Span::new(6, 10)),
            (Token::ArrowRight, Span::new(10, 12)),
            (identifier("x"), Span::new(12, 13)),
        ]
    );
}

fn check_tiling(text: &str) {
    let all = Lexer::new(text).collect();
    let mut end = 0;
    for (token, span) in &all {
        assert!(end <= span.start());
        assert!(span.start() < span.end());
        assert!(span.end() <= text.len());
        assert!(text[end..span.start()].chars().all(|c| c.is_whitespace()));
        let lexeme = &text[span.start()..span.end()];
        let alone = Lexer::new(lexeme).collect();
        assert_eq!(alone.len(), 1);
        assert_eq!(&alone[0].0, token);
        assert_eq!(alone[0].1, Span::new(0, lexeme.len()));
        end = span.end();
    }
    assert!(text[end..].chars().all(|c| c.is_whitespace()));
}

#[test]
fn spans_tile_the_text_and_reproduce_the_lexemes() {
    check_tiling("select * from author->book where title like \"Harry Potter\";");
    check_tiling("create book:hp1 {\n  title = \"Philosopher\u{2019}s Stone\",\n  pages = 223\n};");
    check_tiling("  a<=b >= 3.5 - 12.\t\"open \\\" string");
    check_tiling("x = \"escaped \\");
    check_tiling("99999999999999999999999999999 1.5 # \u{1f600} \u{e9}");
    check_tiling("");
}

#[test]
fn next_moves_on_and_peek_does_not() {
    let mut lexer = Lexer::new("a b");
    assert_eq!(lexer.peek_token(), Some((identifier("a"), Span::new(0, 1))));
    assert_eq!(lexer.peek_token(), Some((identifier("a"), Span::new(0, 1))));
    assert_eq!(lexer.next(), Some((identifier("a"), Span::new(0, 1))));
    assert_eq!(lexer.peek_token(), Some((identifier("b"), Span::new(2, 3))));
    assert_eq!(lexer.next(), Some((identifier("b"), Span::new(2, 3))));
    assert_eq!(lexer.peek_token(), None);
    assert_eq!(lexer.next(), None);
    assert_eq!(lexer.next(), None);
}

#[test]
fn collect_reads_what_is_left() {
    let mut lexer = Lexer::new("a , b");
    lexer.next();
    assert_eq!(
        lexer.collect(),
        vec![(Token::Comma, Span::new(2, 3)), (identifier("b"), Span::new(4, 5))]
    );
    assert_eq!(lexer.collect(), vec![]);
}

#[test]
fn kind_forgets_what_a_token_carries() {
    assert_eq!(identifier("a").kind(), TokenKind::Identifier);
    assert_eq!(identifier("b").kind(), TokenKind::Identifier);
    assert_eq!(Token::StringLiteral("a".to_string()).kind(), TokenKind::StringLiteral);
    assert_eq!(Token::IntLiteral(1).kind(), TokenKind::IntLiteral);
    assert_eq!(Token::FloatLiteral("1.5".to_string()).kind(), TokenKind::FloatLiteral);
    assert_eq!(Token::Unknown('#').kind(), TokenKind::Unknown);
    assert_eq!(Token::Select.kind(), TokenKind::Select);
    assert_eq!(Token::ArrowLeft.kind(), TokenKind::ArrowLeft);
    assert_eq!(Token::NotEquals.kind(), TokenKind::NotEquals);
    assert_eq!(Token::LBrace.kind(), TokenKind::LBrace);
    assert_eq!(Token::RBrace.kind(), TokenKind::RBrace);
}

#[test]
fn tokens_clone_to_equal_tokens() {
    for token in tokens_of("select a \"b\" 1 2.5 # ->") {
        assert_eq!(token.clone(), token);
    }
}

#[test]
fn classify_looks_characters_up() {
    assert_eq!(
        classify('a'),
        Symbol { c: 'a', alphabetic: true, alphanumeric: true, whitespace: false }
    );
    assert_eq!(
        classify('7'),
        Symbol { c: '7', alphabetic: false, alphanumeric: true, whitespace: false }
    );
    assert_eq!(
        classify(' '),
        Symbol { c: ' ', alphabetic: false, alphanumeric: false, whitespace: true }
    );
    assert_eq!(
        classify('_'),
        Symbol { c: '_', alphabetic: false, alphanumeric: false, whitespace: false }
    );
    assert_eq!(
        classify('\u{e9}'),
        Symbol { c: '\u{e9}', alphabetic: true, alphanumeric: true, whitespace: false }
    );
    assert_eq!(
        classify('\u{b2}'),
        Symbol { c: '\u{b2}', alphabetic: false, alphanumeric: true, whitespace: false }
    );
    assert_eq!(
        classify('\u{2003}'),
        Symbol { c: '\u{2003}', alphabetic: false, alphanumeric: false, whitespace: true }
    );
}

#[test]
fn character_classes() {
    assert!(CharClass::Any.test(classify('x')));
    assert!(CharClass::Exactly('>').test(classify('>')));
    assert!(!CharClass::Exactly('>').test(classify('<')));
    assert!(CharClass::Word.test(classify('a')));
    assert!(CharClass::Word.test(classify('9')));
    assert!(CharClass::Word.test(classify('_')));
    assert!(CharClass::Word.test(classify('\u{e9}')));
    assert!(!CharClass::Word.test(classify('-')));
    assert!(!CharClass::Word.test(classify(' ')));
    assert!(CharClass::Digit.test(classify('0')));
    assert!(CharClass::Digit.test(classify('9')));
    assert!(!CharClass::Digit.test(classify('a')));
    assert!(!CharClass::Digit.test(classify('\u{663}')));
    assert!(CharClass::Blank.test(classify(' ')));
    assert!(CharClass::Blank.test(classify('\n')));
    assert!(CharClass::Blank.test(classify('\u{a0}')));
    assert!(!CharClass::Blank.test(classify('a')));
}

#[test]
fn classes_go_by_the_symbol() {
    let odd = Symbol { c: 'a', alphabetic: false, alphanumeric: false, whitespace: true };
    assert!(CharClass::Blank.test(odd));
    assert!(!CharClass::Word.test(odd));
    assert!(CharClass::Exactly('a').test(odd));
    let digit = Symbol { c: '5', alphabetic: false, alphanumeric: false, whitespace: false };
    assert!(CharClass::Digit.test(digit));
    assert!(!CharClass::Word.test(digit));
}

#[test]
fn a_scanner_of_symbols_reads_as_a_scanner_of_their_text() {
    let text = "select t\u{e9}, x from a->b where y >= 2.5 and z like \"q\";";
    let symbols: Vec<Symbol> = text.chars().map(classify).collect();
    let mut lexer = Lexer::from_symbols(symbols).unwrap();
    assert_eq!(lexer.collect(), Lexer::new(text).collect());
}

#[test]
fn a_scanner_of_symbols_goes_by_the_classes_given() {
    let plain = |c: char| Symbol { c, alphabetic: false, alphanumeric: false, whitespace: false };
    let blank = |c: char| Symbol { c, alphabetic: false, alphanumeric: false, whitespace: true };
    let letter = |c: char| Symbol { c, alphabetic: true, alphanumeric: true, whitespace: false };
    let mut unknown = Lexer::from_symbols(vec![plain('a'), plain('b')]).unwrap();
    assert_eq!(
        unknown.collect(),
        vec![(Token::Unknown('a'), Span::new(0, 1)), (Token::Unknown('b'), Span::new(1, 2))]
    );
    let mut skipped = Lexer::from_symbols(vec![blank('a'), letter('b'), blank('c')]).unwrap();
    assert_eq!(skipped.collect(), vec![(identifier("b"), Span::new(1, 2))]);
    let mut claimed = Lexer::from_symbols(vec![blank(';'), blank('7'), letter(' ')]).unwrap();
    assert_eq!(
        claimed.collect(),
        vec![
            (Token::Semicolon, Span::new(0, 1)),
            (Token::IntLiteral(7), Span::new(1, 2)),
            (identifier(" "), Span::new(2, 3)),
        ]
    );
    let mut empty = Lexer::from_symbols(vec![]).unwrap();
    assert_eq!(empty.next(), None);
}

#[test]
fn widths_of_characters() {
    assert_eq!(utf8_width('a'), 1);
    assert_eq!(utf8_width('\u{7f}'), 1);
    assert_eq!(utf8_width('\u{80}'), 2);
    assert_eq!(utf8_width('\u{7ff}'), 2);
    assert_eq!(utf8_width('\u{800}'), 3);
    assert_eq!(utf8_width('\u{ffff}'), 3);
    assert_eq!(utf8_width('\u{10000}'), 4);
    assert_eq!(utf8_width('\u{10ffff}'), 4);
    for c in ['a', '\u{e9}', '\u{2019}', '\u{1f600}'] {
        assert_eq!(utf8_width(c), c.len_utf8());
    }
}

#[test]
fn texts_compare_by_their_characters() {
    assert!(same_text("", ""));
    assert!(same_text("select", "select"));
    assert!(!same_text("select", "selecT"));
    assert!(!same_text("select", "selec"));
    assert!(same_text("\u{e9}t\u{e9}", "\u{e9}t\u{e9}"));
    assert!(!same_text("\u{e9}", "e"));
}

#[test]
fn spans_keep_their_ends() {
    let span = Span::new(3, 9);
    assert_eq!(span.start(), 3);
    assert_eq!(span.end(), 9);
    assert_eq!(Span::new(9, 3).start(), 9);
}

#[test]
fn merge_is_the_smallest_span_around_both() {
    assert_eq!(Span::new(3, 9).merge(&Span::new(5, 12)), Span::new(3, 12));
    assert_eq!(Span::new(5, 12).merge(&Span::new(3, 9)), Span::new(3, 12));
    assert_eq!(Span::new(0, 2).merge(&Span::new(7, 8)), Span::new(0, 8));
    assert_eq!(Span::new(4, 6).merge(&Span::new(4, 6)), Span::new(4, 6));
    assert_eq!(Span::new(1, 10).merge(&Span::new(3, 4)), Span::new(1, 10));
}

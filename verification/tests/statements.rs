use mql::ast::{
    EntityDescription, FilterExpression, Operator, ParseError, PathExpression, Projection, Value,
    AST,
};
use mql::lexer::Lexer;
use mql::mapping::Mapping;
use mql::parser::{parse, Parser};
use mql::token::Token;

fn no_id(typename: &str) -> EntityDescription {
    EntityDescription::NoId(typename.to_string())
}

fn with_id(id: &str, typename: &str) -> EntityDescription {
    EntityDescription::WithId(id.to_string(), typename.to_string())
}

fn identifier(name: &str) -> Token {
    Token::Identifier(name.to_string())
}

fn plain(field: &str, operator: Operator, value: Value) -> FilterExpression {
    FilterExpression::Plain(field.to_string(), operator, value)
}

fn text(value: &str) -> Value {
    Value::String(value.to_string())
}

fn select_all_where(filter: FilterExpression) -> Result<AST, ParseError> {
    Ok(AST::Select(Projection::All, PathExpression(no_id("t"), vec![]), Some(filter)))
}

fn mapping(pairs: Vec<(&str, Value)>) -> Mapping {
    let mut values = Mapping::new();
    for (key, value) in pairs {
        values.insert(key.to_string(), value);
    }
    values
}

#[test]
fn select_all_from_a_type() {
    let parsed = Parser::new(Lexer::new("select * from author;")).parse();
    assert_eq!(
        parsed,
        Ok(AST::Select(Projection::All, PathExpression(no_id("author"), vec![]), None))
    );
}

#[test]
fn select_a_field_from_an_instance() {
    assert_eq!(
        parse("select title from book:hp1;"),
        Ok(AST::Select(
            Projection::Fields(vec!["title".to_string()]),
            PathExpression(with_id("hp1", "book"), vec![]),
            None
        ))
    );
}

#[test]
fn select_along_a_path() {
    assert_eq!(
        parse("select * from author->book;"),
        Ok(AST::Select(
            Projection::All,
            PathExpression(no_id("author"), vec![no_id("book")]),
            None
        ))
    );
}

#[test]
fn select_along_a_longer_path() {
    assert_eq!(
        parse("select * from author:jk -> book -> shop:s1;"),
        Ok(AST::Select(
            Projection::All,
            PathExpression(with_id("jk", "author"), vec![no_id("book"), with_id("s1", "shop")]),
            None
        ))
    );
}

#[test]
fn select_without_fields_is_an_invalid_projection() {
    assert_eq!(parse("select from x;"), Err(ParseError::InvalidProjection));
    assert_eq!(parse("select 3 from x;"), Err(ParseError::InvalidProjection));
    assert_eq!(parse("select , a from x;"), Err(ParseError::InvalidProjection));
}

#[test]
fn select_several_fields() {
    let fields = Projection::Fields(vec!["title".to_string(), "pages".to_string()]);
    assert_eq!(
        parse("select title, pages from book;"),
        Ok(AST::Select(fields, PathExpression(no_id("book"), vec![]), None))
    );
}

#[test]
fn a_comma_may_end_the_fields() {
    assert_eq!(
        parse("select title, from book;"),
        Ok(AST::Select(
            Projection::Fields(vec!["title".to_string()]),
            PathExpression(no_id("book"), vec![]),
            None
        ))
    );
}

#[test]
fn fields_without_a_comma_between_them_are_refused() {
    assert_eq!(
        parse("select title pages from book;"),
        Err(ParseError::UnexpectedToken(identifier("pages")))
    );
}

#[test]
fn select_needs_from() {
    assert_eq!(parse("select * book;"), Err(ParseError::UnexpectedToken(identifier("book"))));
    assert_eq!(parse("select *"), Err(ParseError::UnexpectedEOF));
    assert_eq!(parse("select"), Err(ParseError::UnexpectedEOF));
    assert_eq!(parse("select a,"), Err(ParseError::UnexpectedEOF));
    assert_eq!(parse("select a"), Err(ParseError::UnexpectedEOF));
}

#[test]
fn a_path_needs_a_token_after_it() {
    assert_eq!(parse("select * from author"), Err(ParseError::UnexpectedEOF));
    assert_eq!(parse("select * from author->book"), Err(ParseError::UnexpectedEOF));
    assert_eq!(parse("select * from author->"), Err(ParseError::UnexpectedEOF));
    assert_eq!(parse("select * from"), Err(ParseError::UnexpectedEOF));
    assert_eq!(parse("select * from author:"), Err(ParseError::UnexpectedEOF));
}

#[test]
fn an_entity_needs_identifiers() {
    assert_eq!(parse("select * from 3;"), Err(ParseError::UnexpectedToken(Token::IntLiteral(3))));
    assert_eq!(parse("select * from a:3;"), Err(ParseError::UnexpectedToken(Token::IntLiteral(3))));
    assert_eq!(parse("select * from a->;"), Err(ParseError::UnexpectedToken(Token::Semicolon)));
    assert_eq!(parse("select * from select;"), Err(ParseError::UnexpectedToken(Token::Select)));
}

#[test]
fn what_follows_a_path_is_a_semicolon_or_a_condition() {
    assert_eq!(parse("select * from a b"), Err(ParseError::UnexpectedToken(identifier("b"))));
    assert_eq!(parse("select * from a like"), Err(ParseError::UnexpectedToken(Token::Like)));
}

#[test]
fn select_with_a_condition() {
    assert_eq!(
        parse("select * from t where name = \"J.K. Rowling\";"),
        select_all_where(plain("name", Operator::Equals, text("J.K. Rowling")))
    );
    assert_eq!(
        parse("select * from author->book where title like \"Harry Potter\";"),
        Ok(AST::Select(
            Projection::All,
            PathExpression(no_id("author"), vec![no_id("book")]),
            Some(plain("title", Operator::Like, text("Harry Potter")))
        ))
    );
}

#[test]
fn the_semicolon_after_a_condition_is_optional() {
    assert_eq!(
        parse("select * from t where pages > 200"),
        select_all_where(plain("pages", Operator::GreaterThan, Value::Int(200)))
    );
}

#[test]
fn every_scanned_operator_is_read() {
    let cases = [
        ("=", Operator::Equals),
        ("<", Operator::SmallerThan),
        (">", Operator::GreaterThan),
        ("<=", Operator::SmallerThanOrEqual),
        (">=", Operator::GreaterThanOrEqual),
        ("like", Operator::Like),
    ];
    for (symbol, operator) in cases {
        assert_eq!(
            parse(&format!("select * from t where a {} 1;", symbol)),
            select_all_where(plain("a", operator, Value::Int(1)))
        );
    }
}

#[test]
fn operators_come_from_their_tokens() {
    assert_eq!(Operator::try_from(Token::Equals), Ok(Operator::Equals));
    assert_eq!(Operator::try_from(Token::NotEquals), Ok(Operator::NotEquals));
    assert_eq!(Operator::try_from(Token::SmallerThan), Ok(Operator::SmallerThan));
    assert_eq!(Operator::try_from(Token::GreaterThan), Ok(Operator::GreaterThan));
    assert_eq!(Operator::try_from(Token::SmallerThanOrEquals), Ok(Operator::SmallerThanOrEqual));
    assert_eq!(Operator::try_from(Token::GreaterThanOrEquals), Ok(Operator::GreaterThanOrEqual));
    assert_eq!(Operator::try_from(Token::Like), Ok(Operator::Like));
    assert_eq!(Operator::try_from(Token::ArrowRight), Err(()));
    assert_eq!(Operator::try_from(identifier("like")), Err(()));
}

#[test]
fn values_come_from_literal_tokens() {
    assert_eq!(Value::try_from(Token::StringLiteral("a".to_string())), Ok(text("a")));
    assert_eq!(Value::try_from(Token::IntLiteral(7)), Ok(Value::Int(7)));
    assert_eq!(
        Value::try_from(Token::FloatLiteral("7.5".to_string())),
        Ok(Value::Float("7.5".to_string()))
    );
    assert_eq!(Value::try_from(identifier("a")), Err(()));
    assert_eq!(Value::try_from(Token::Semicolon), Err(()));
}

#[test]
fn values_of_different_kinds_differ() {
    assert_ne!(Value::Int(3), text("3"));
    assert_ne!(Value::Float("3.0".to_string()), text("3.0"));
    assert_ne!(Value::Int(3), Value::Int(4));
    assert_eq!(Value::Float("3.5".to_string()), Value::Float("3.5".to_string()).clone());
}

#[test]
fn values_of_each_kind_in_a_condition() {
    assert_eq!(
        parse("select * from t where a = 2.5;"),
        select_all_where(plain("a", Operator::Equals, Value::Float("2.5".to_string())))
    );
    match parse("select * from t where a = 2.5;") {
        Ok(AST::Select(_, _, Some(FilterExpression::Plain(_, _, Value::Float(number))))) => {
            assert_eq!(number.parse::<f64>(), Ok(2.5))
        }
        other => panic!("not a comparison with a float: {:?}", other),
    }
}

#[test]
fn a_comparison_needs_an_operator_and_a_value() {
    assert_eq!(
        parse("select * from t where a b 1;"),
        Err(ParseError::UnexpectedToken(identifier("b")))
    );
    assert_eq!(
        parse("select * from t where a = b;"),
        Err(ParseError::UnexpectedToken(identifier("b")))
    );
    assert_eq!(parse("select * from t where a ="), Err(ParseError::UnexpectedEOF));
    assert_eq!(parse("select * from t where a"), Err(ParseError::UnexpectedEOF));
    assert_eq!(parse("select * from t where"), Err(ParseError::UnexpectedEOF));
    assert_eq!(
        parse("select * from t where 1 = 1;"),
        Err(ParseError::UnexpectedToken(Token::IntLiteral(1)))
    );
}

#[test]
fn and_and_or_combine_conditions() {
    let a = || plain("a", Operator::Equals, Value::Int(1));
    let b = || plain("b", Operator::SmallerThan, Value::Int(2));
    assert_eq!(
        parse("select * from t where a = 1 and b < 2;"),
        select_all_where(FilterExpression::And(Box::new(a()), Box::new(b())))
    );
    assert_eq!(
        parse("select * from t where a = 1 or b < 2;"),
        select_all_where(FilterExpression::Or(Box::new(a()), Box::new(b())))
    );
}

#[test]
fn and_and_or_group_to_the_right() {
    let a = || plain("a", Operator::Equals, Value::Int(1));
    let b = || plain("b", Operator::Equals, Value::Int(2));
    let c = || plain("c", Operator::Equals, Value::Int(3));
    assert_eq!(
        parse("select * from t where a = 1 and b = 2 or c = 3;"),
        select_all_where(FilterExpression::And(
            Box::new(a()),
            Box::new(FilterExpression::Or(Box::new(b()), Box::new(c())))
        ))
    );
    assert_eq!(
        parse("select * from t where a = 1 or b = 2 and c = 3;"),
        select_all_where(FilterExpression::Or(
            Box::new(a()),
            Box::new(FilterExpression::And(Box::new(b()), Box::new(c())))
        ))
    );
}

#[test]
fn parentheses_group_and_leave_no_node() {
    let a = || plain("a", Operator::Equals, Value::Int(1));
    let b = || plain("b", Operator::Equals, Value::Int(2));
    let c = || plain("c", Operator::Equals, Value::Int(3));
    assert_eq!(parse("select * from t where (a = 1);"), select_all_where(a()));
    assert_eq!(parse("select * from t where ((a = 1));"), select_all_where(a()));
    assert_eq!(
        parse("select * from t where (a = 1 and b = 2) or c = 3;"),
        select_all_where(FilterExpression::Or(
            Box::new(FilterExpression::And(Box::new(a()), Box::new(b()))),
            Box::new(c())
        ))
    );
}

#[test]
fn parentheses_have_to_be_closed() {
    assert_eq!(
        parse("select * from t where (a = 1;"),
        Err(ParseError::UnexpectedToken(Token::Semicolon))
    );
    assert_eq!(parse("select * from t where (a = 1"), Err(ParseError::UnexpectedEOF));
    assert_eq!(parse("select * from t where ("), Err(ParseError::UnexpectedEOF));
    assert_eq!(parse("select * from t where a = 1 and"), Err(ParseError::UnexpectedEOF));
    assert_eq!(
        parse("select * from t where a = 1 and ;"),
        Err(ParseError::UnexpectedToken(Token::Semicolon))
    );
}

#[test]
fn create_with_one_pair() {
    assert_eq!(
        parse("create author:jk { name = \"J.K. Rowling\" };"),
        Ok(AST::Create(with_id("jk", "author"), mapping(vec![("name", text("J.K. Rowling"))])))
    );
}

#[test]
fn create_with_several_pairs() {
    let parsed = parse("create book:hp1 { title = \"Stone\", pages = 223, price = 9.5 };");
    let expected = mapping(vec![
        ("price", Value::Float("9.5".to_string())),
        ("title", text("Stone")),
        ("pages", Value::Int(223)),
    ]);
    assert_eq!(parsed, Ok(AST::Create(with_id("hp1", "book"), expected)));
}

#[test]
fn create_with_an_empty_block() {
    assert_eq!(parse("create author {}"), Ok(AST::Create(no_id("author"), Mapping::new())));
    assert_eq!(parse("create author {};"), Ok(AST::Create(no_id("author"), Mapping::new())));
}

#[test]
fn the_last_pair_with_a_key_counts() {
    assert_eq!(
        parse("create a { x = 1, y = 2, x = 3 }"),
        Ok(AST::Create(no_id("a"), mapping(vec![("x", Value::Int(3)), ("y", Value::Int(2))])))
    );
}

#[test]
fn a_comma_may_end_the_pairs() {
    assert_eq!(
        parse("create a { x = 1, }"),
        Ok(AST::Create(no_id("a"), mapping(vec![("x", Value::Int(1))])))
    );
}

#[test]
fn a_block_needs_its_braces() {
    assert_eq!(parse("create a x = 1 }"), Err(ParseError::UnexpectedToken(identifier("x"))));
    assert_eq!(parse("create a ( x = 1 }"), Err(ParseError::UnexpectedToken(Token::LParen)));
    assert_eq!(parse("create a } x = 1 {"), Err(ParseError::UnexpectedToken(Token::RBrace)));
    assert_eq!(parse("create a { x = 1"), Err(ParseError::UnexpectedEOF));
    assert_eq!(parse("create a { x = 1,"), Err(ParseError::UnexpectedEOF));
    assert_eq!(parse("create a {"), Err(ParseError::UnexpectedEOF));
    assert_eq!(parse("create a"), Err(ParseError::UnexpectedEOF));
    assert_eq!(parse("create"), Err(ParseError::UnexpectedEOF));
    assert_eq!(
        parse("create a { x = 1 y = 2 }"),
        Err(ParseError::UnexpectedToken(identifier("y")))
    );
}

#[test]
fn a_pair_is_a_key_equals_and_a_value() {
    assert_eq!(parse("create a { x 1 }"), Err(ParseError::UnexpectedToken(Token::IntLiteral(1))));
    assert_eq!(parse("create a { x = y }"), Err(ParseError::UnexpectedToken(identifier("y"))));
    assert_eq!(parse("create a { 1 = 1 }"), Err(ParseError::UnexpectedToken(Token::IntLiteral(1))));
    assert_eq!(parse("create a { x = }"), Err(ParseError::UnexpectedToken(Token::RBrace)));
    assert_eq!(
        parse("create a { author -> author:jk }"),
        Err(ParseError::UnexpectedToken(Token::ArrowRight))
    );
}

#[test]
fn link_two_instances() {
    assert_eq!(
        parse("link author:jk -> book:hp2;"),
        Ok(AST::Link(with_id("jk", "author"), with_id("hp2", "book")))
    );
    assert_eq!(parse("link a->b"), Ok(AST::Link(no_id("a"), no_id("b"))));
}

#[test]
fn link_needs_the_arrow() {
    assert_eq!(parse("link a b"), Err(ParseError::UnexpectedToken(identifier("b"))));
    assert_eq!(parse("link a - b"), Err(ParseError::UnexpectedToken(Token::Unknown('-'))));
    assert_eq!(parse("link a"), Err(ParseError::UnexpectedEOF));
    assert_eq!(parse("link a ->"), Err(ParseError::UnexpectedEOF));
    assert_eq!(parse("link"), Err(ParseError::UnexpectedEOF));
}

#[test]
fn unknown_first_character_is_an_unexpected_token() {
    let mut lexer = Lexer::new("#foo;");
    let first = lexer.next().map(|(token, _)| token);
    assert_eq!(first, Some(Token::Unknown('#')));
    assert_eq!(parse("#foo;"), Err(ParseError::UnexpectedToken(Token::Unknown('#'))));
}

#[test]
fn a_statement_starts_with_its_keyword() {
    assert_eq!(parse(""), Err(ParseError::UnexpectedEOF));
    assert_eq!(parse("   "), Err(ParseError::UnexpectedEOF));
    assert_eq!(parse("author"), Err(ParseError::UnexpectedToken(identifier("author"))));
    assert_eq!(parse("where a = 1"), Err(ParseError::UnexpectedToken(Token::Where)));
    assert_eq!(parse(";"), Err(ParseError::UnexpectedToken(Token::Semicolon)));
    assert_eq!(parse("SELECT * from a;"), Err(ParseError::UnexpectedToken(identifier("SELECT"))));
}

#[test]
fn an_integer_that_does_not_fit_is_an_unexpected_token() {
    let query = format!("create a {{ x = {}0 }}", usize::MAX);
    let first = format!("{}", usize::MAX).chars().next().unwrap();
    assert_eq!(parse(&query), Err(ParseError::UnexpectedToken(Token::Unknown(first))));
}

#[test]
fn what_follows_a_statement_is_not_looked_at() {
    let expected = Ok(AST::Select(Projection::All, PathExpression(no_id("a"), vec![]), None));
    assert_eq!(parse("select * from a; # 99999999999999999999999999999"), expected);
}

#[test]
fn a_parser_reads_statement_after_statement() {
    let mut parser = Parser::new(Lexer::new("link a -> b; select * from c; create d {} link e"));
    assert_eq!(parser.parse(), Ok(AST::Link(no_id("a"), no_id("b"))));
    assert_eq!(parser.parse(), Err(ParseError::UnexpectedToken(Token::Semicolon)));
    let mut parser = Parser::new(Lexer::new("select * from c; create d {} link e -> f"));
    assert_eq!(
        parser.parse(),
        Ok(AST::Select(Projection::All, PathExpression(no_id("c"), vec![]), None))
    );
    assert_eq!(parser.parse(), Ok(AST::Create(no_id("d"), Mapping::new())));
    assert_eq!(parser.parse(), Ok(AST::Link(no_id("e"), no_id("f"))));
    assert_eq!(parser.parse(), Err(ParseError::UnexpectedEOF));
}

#[test]
fn an_unexpected_first_token_is_not_read() {
    let mut parser = Parser::new(Lexer::new("x link a -> b"));
    assert_eq!(parser.parse(), Err(ParseError::UnexpectedToken(identifier("x"))));
    assert_eq!(parser.parse(), Err(ParseError::UnexpectedToken(identifier("x"))));
}

#[test]
fn parsing_twice_gives_equal_statements() {
    let queries = [
        "select * from author;",
        "select title, pages from book:hp1 -> author where (a = 1 or b like \"x\") and c >= 2.5;",
        "create author:jk { name = \"J.K. Rowling\", born = 1965 };",
        "link author:jk -> book:hp2;",
        "select from x;",
        "#foo;",
        "",
    ];
    for query in queries {
        assert_eq!(parse(query), parse(query));
        assert_eq!(Parser::new(Lexer::new(query)).parse(), parse(query));
    }
}

#[test]
fn statements_have_type_names_and_fields() {
    match parse("select a from b:c -> d;") {
        Ok(AST::Select(Projection::Fields(fields), PathExpression(source, hops), None)) => {
            assert!(!fields.is_empty());
            assert_eq!(source, with_id("c", "b"));
            assert_eq!(hops, vec![no_id("d")]);
        }
        other => panic!("not a select: {:?}", other),
    }
}

//! The grammar of the query language, stated over sequences of tokens.
//!
//! Each rule takes the tokens that are left and gives a [`Step`]: what the
//! rule makes of them, or the first error, and the tokens left after it.
//!
//! ```text
//! statement  = select | create | link
//! select     = "select" projection "from" path ( ";" | condition )
//! create     = "create" entity block [ ";" ]
//! link       = "link" entity "->" entity
//! projection = "*" | identifier { "," identifier } [ "," ]
//! path       = entity { "->" entity }
//! entity     = identifier [ ":" identifier ]
//! block      = "{" [ pair { "," pair } [ "," ] ] "}"
//! pair       = identifier "=" value
//! condition  = "where" expression [ ";" ]
//! expression = base [ ( "and" | "or" ) expression ]
//! base       = "(" expression ")" | identifier operator value
//! ```
//!
//! `and` and `or` bind alike and group to the right: `a and b or c` is
//! `a and (b or c)`.

use crate::ast::{
    operator_of, value_of, AstView, EntityView, FilterView, Operator, ParseErrorView, PathView,
    ProjectionView, ValueView,
};
use crate::token::{TokenKind, TokenView};
use vstd::prelude::*;

verus! {

/// What a rule makes of the tokens it is given, and the tokens left after it.
pub struct Step<T> {
    pub result: Result<T, ParseErrorView>,
    pub rest: Seq<TokenView>,
}

/// The step of a rule that fails with `error` and leaves `rest`.
pub open spec fn fail<T>(error: ParseErrorView, rest: Seq<TokenView>) -> Step<T> {
    Step { result: Err(error), rest }
}

/// The step of a rule that makes `value` and leaves `rest`.
pub open spec fn done<T>(value: T, rest: Seq<TokenView>) -> Step<T> {
    Step { result: Ok(value), rest }
}

/// Whether the next token is of the kind `kind`.
pub open spec fn next_is(ts: Seq<TokenView>, kind: TokenKind) -> bool {
    ts.len() > 0 && ts[0].kind() == kind
}

/// Reads one token, which has to be of the kind `kind`. A token of another
/// kind is read too, and reported.
pub open spec fn expect(ts: Seq<TokenView>, kind: TokenKind) -> Step<TokenView> {
    if ts.len() == 0 {
        fail(ParseErrorView::UnexpectedEOF, ts)
    } else if ts[0].kind() == kind {
        done(ts[0], ts.skip(1))
    } else {
        fail(ParseErrorView::UnexpectedToken(ts[0]), ts.skip(1))
    }
}

/// Reads the next token if it is of the kind `kind`.
pub open spec fn accept(ts: Seq<TokenView>, kind: TokenKind) -> Seq<TokenView> {
    if next_is(ts, kind) {
        ts.skip(1)
    } else {
        ts
    }
}

/// Reads an identifier and gives its text.
pub open spec fn identifier(ts: Seq<TokenView>) -> Step<Seq<char>> {
    if ts.len() == 0 {
        fail(ParseErrorView::UnexpectedEOF, ts)
    } else {
        match ts[0] {
            TokenView::Identifier(name) => done(name, ts.skip(1)),
            other => fail(ParseErrorView::UnexpectedToken(other), ts.skip(1)),
        }
    }
}

/// Reads an operator.
pub open spec fn operator(ts: Seq<TokenView>) -> Step<Operator> {
    if ts.len() == 0 {
        fail(ParseErrorView::UnexpectedEOF, ts)
    } else {
        match operator_of(ts[0]) {
            Some(found) => done(found, ts.skip(1)),
            None => fail(ParseErrorView::UnexpectedToken(ts[0]), ts.skip(1)),
        }
    }
}

/// Reads a literal value.
pub open spec fn value(ts: Seq<TokenView>) -> Step<ValueView> {
    if ts.len() == 0 {
        fail(ParseErrorView::UnexpectedEOF, ts)
    } else {
        match value_of(ts[0]) {
            Some(found) => done(found, ts.skip(1)),
            None => fail(ParseErrorView::UnexpectedToken(ts[0]), ts.skip(1)),
        }
    }
}

/// Reads a type name and, after a colon, the identifier of an instance.
pub open spec fn entity(ts: Seq<TokenView>) -> Step<EntityView> {
    let typename = identifier(ts);
    match typename.result {
        Err(error) => fail(error, typename.rest),
        Ok(name) => if next_is(typename.rest, TokenKind::Colon) {
            let id = identifier(typename.rest.skip(1));
            match id.result {
                Err(error) => fail(error, id.rest),
                Ok(instance) => done(EntityView::WithId(instance, name), id.rest),
            }
        } else {
            done(EntityView::NoId(name), typename.rest)
        },
    }
}

/// Reads the hops of a path, each an arrow and an entity, after the hops
/// `found`. The path has to be followed by a token.
pub open spec fn hops(ts: Seq<TokenView>, found: Seq<EntityView>) -> Step<Seq<EntityView>>
    decreases ts.len(),
{
    if ts.len() == 0 {
        fail(ParseErrorView::UnexpectedEOF, ts)
    } else if ts[0] == TokenView::ArrowRight {
        let hop = entity(ts.skip(1));
        match hop.result {
            Err(error) => fail(error, hop.rest),
            Ok(reached) => hops(hop.rest, found.push(reached)),
        }
    } else {
        done(found, ts)
    }
}

/// Reads a source entity and the hops from it.
pub open spec fn path(ts: Seq<TokenView>) -> Step<PathView> {
    let source = entity(ts);
    match source.result {
        Err(error) => fail(error, source.rest),
        Ok(from) => {
            let tail = hops(source.rest, seq![]);
            match tail.result {
                Err(error) => fail(error, tail.rest),
                Ok(reached) => done(PathView { source: from, hops: reached }, tail.rest),
            }
        },
    }
}

/// Reads field names, each but the last followed by a comma, after the names
/// `found`. Reading ends before a token that is not an identifier, and after
/// an identifier that no comma follows.
pub open spec fn fields(ts: Seq<TokenView>, found: Seq<Seq<char>>) -> Step<Seq<Seq<char>>>
    decreases ts.len(),
{
    if ts.len() == 0 {
        fail(ParseErrorView::UnexpectedEOF, ts)
    } else {
        match ts[0] {
            TokenView::Identifier(name) => if next_is(ts.skip(1), TokenKind::Comma) {
                fields(ts.skip(1).skip(1), found.push(name))
            } else {
                done(found.push(name), ts.skip(1))
            },
            _ => done(found, ts),
        }
    }
}

/// Reads `*` or a list of field names. A list without a name is an error.
pub open spec fn projection(ts: Seq<TokenView>) -> Step<ProjectionView> {
    if ts.len() == 0 {
        fail(ParseErrorView::UnexpectedEOF, ts)
    } else if ts[0] == TokenView::Asterisk {
        done(ProjectionView::All, ts.skip(1))
    } else {
        let names = fields(ts, seq![]);
        match names.result {
            Err(error) => fail(error, names.rest),
            Ok(found) => if found.len() == 0 {
                fail(ParseErrorView::InvalidProjection, names.rest)
            } else {
                done(ProjectionView::Fields(found), names.rest)
            },
        }
    }
}

/// Reads a key, `=` and a value.
pub open spec fn pair(ts: Seq<TokenView>) -> Step<(Seq<char>, ValueView)> {
    let key = identifier(ts);
    match key.result {
        Err(error) => fail(error, key.rest),
        Ok(name) => {
            let equals = expect(key.rest, TokenKind::Equals);
            match equals.result {
                Err(error) => fail(error, equals.rest),
                Ok(_) => {
                    let literal = value(equals.rest);
                    match literal.result {
                        Err(error) => fail(error, literal.rest),
                        Ok(found) => done((name, found), literal.rest),
                    }
                },
            }
        },
    }
}

/// Reads the pairs of a block, each but the last followed by a comma, into
/// the map `found`; a later pair replaces an earlier one with its key.
/// Reading ends before the closing brace, at the end of the text, and after a
/// pair that no comma follows.
pub open spec fn pairs(ts: Seq<TokenView>, found: Map<Seq<char>, ValueView>) -> Step<
    Map<Seq<char>, ValueView>,
>
    decreases ts.len(),
{
    if ts.len() == 0 || ts[0] == TokenView::RBrace {
        done(found, ts)
    } else {
        let next = pair(ts);
        match next.result {
            Err(error) => fail(error, next.rest),
            Ok(entry) => if next_is(next.rest, TokenKind::Comma) {
                pairs(next.rest.skip(1), found.insert(entry.0, entry.1))
            } else {
                done(found.insert(entry.0, entry.1), next.rest)
            },
        }
    }
}

/// Reads a block of key/value pairs between braces.
pub open spec fn block(ts: Seq<TokenView>) -> Step<Map<Seq<char>, ValueView>> {
    let open = expect(ts, TokenKind::LBrace);
    match open.result {
        Err(error) => fail(error, open.rest),
        Ok(_) => {
            let body = pairs(open.rest, Map::empty());
            match body.result {
                Err(error) => fail(error, body.rest),
                Ok(found) => {
                    let close = expect(body.rest, TokenKind::RBrace);
                    match close.result {
                        Err(error) => fail(error, close.rest),
                        Ok(_) => done(found, close.rest),
                    }
                },
            }
        },
    }
}

/// Whether `rest` holds no more tokens than `ts`. Of what a rule leaves this
/// always holds; see [`lemma_expression_rest`].
pub open spec fn no_longer(rest: Seq<TokenView>, ts: Seq<TokenView>) -> bool {
    rest.len() <= ts.len()
}

/// Reads an expression between parentheses, or a field, an operator and a
/// value.
pub open spec fn base(ts: Seq<TokenView>) -> Step<FilterView>
    decreases ts.len(), 0nat,
{
    if ts.len() == 0 {
        fail(ParseErrorView::UnexpectedEOF, ts)
    } else {
        match ts[0] {
            TokenView::LParen => {
                let inner = expression(ts.skip(1));
                match inner.result {
                    Err(error) => fail(error, inner.rest),
                    Ok(found) => {
                        let close = expect(inner.rest, TokenKind::RParen);
                        match close.result {
                            Err(error) => fail(error, close.rest),
                            Ok(_) => done(found, close.rest),
                        }
                    },
                }
            },
            TokenView::Identifier(field) => {
                let comparison = operator(ts.skip(1));
                match comparison.result {
                    Err(error) => fail(error, comparison.rest),
                    Ok(how) => {
                        let literal = value(comparison.rest);
                        match literal.result {
                            Err(error) => fail(error, literal.rest),
                            Ok(with) => done(FilterView::Plain(field, how, with), literal.rest),
                        }
                    },
                }
            },
            other => fail(ParseErrorView::UnexpectedToken(other), ts.skip(1)),
        }
    }
}

/// Reads a base expression and, after `and` or `or`, the expression that it
/// is combined with.
pub open spec fn expression(ts: Seq<TokenView>) -> Step<FilterView>
    decreases ts.len(), 1nat,
{
    let left = base(ts);
    match left.result {
        Err(error) => fail(error, left.rest),
        Ok(lhs) => if no_longer(left.rest, ts) && (next_is(left.rest, TokenKind::And) || next_is(
            left.rest,
            TokenKind::Or,
        )) {
            let right = expression(left.rest.skip(1));
            match right.result {
                Err(error) => fail(error, right.rest),
                Ok(rhs) => if next_is(left.rest, TokenKind::And) {
                    done(FilterView::And(Box::new(lhs), Box::new(rhs)), right.rest)
                } else {
                    done(FilterView::Or(Box::new(lhs), Box::new(rhs)), right.rest)
                },
            }
        } else {
            done(lhs, left.rest)
        },
    }
}

/// Reads `where`, an expression and, if it follows, a semicolon.
pub open spec fn condition(ts: Seq<TokenView>) -> Step<FilterView> {
    let keyword = expect(ts, TokenKind::Where);
    match keyword.result {
        Err(error) => fail(error, keyword.rest),
        Ok(_) => {
            let filter = expression(keyword.rest);
            match filter.result {
                Err(error) => fail(error, filter.rest),
                Ok(found) => done(found, accept(filter.rest, TokenKind::Semicolon)),
            }
        },
    }
}

/// Reads what follows the path of a `select` statement: a semicolon, or a
/// condition.
pub open spec fn select_tail(ts: Seq<TokenView>) -> Step<Option<FilterView>> {
    if ts.len() == 0 {
        fail(ParseErrorView::UnexpectedEOF, ts)
    } else if ts[0] == TokenView::Semicolon {
        done(None, ts.skip(1))
    } else {
        let filter = condition(ts);
        match filter.result {
            Err(error) => fail(error, filter.rest),
            Ok(found) => done(Some(found), filter.rest),
        }
    }
}

/// Reads a `select` statement.
pub open spec fn select(ts: Seq<TokenView>) -> Step<AstView> {
    let keyword = expect(ts, TokenKind::Select);
    match keyword.result {
        Err(error) => fail(error, keyword.rest),
        Ok(_) => {
            let what = projection(keyword.rest);
            match what.result {
                Err(error) => fail(error, what.rest),
                Ok(fields) => {
                    let from = expect(what.rest, TokenKind::From);
                    match from.result {
                        Err(error) => fail(error, from.rest),
                        Ok(_) => {
                            let route = path(from.rest);
                            match route.result {
                                Err(error) => fail(error, route.rest),
                                Ok(along) => {
                                    let tail = select_tail(route.rest);
                                    match tail.result {
                                        Err(error) => fail(error, tail.rest),
                                        Ok(filter) => done(
                                            AstView::Select(fields, along, filter),
                                            tail.rest,
                                        ),
                                    }
                                },
                            }
                        },
                    }
                },
            }
        },
    }
}

/// Reads a `create` statement.
pub open spec fn create(ts: Seq<TokenView>) -> Step<AstView> {
    let keyword = expect(ts, TokenKind::Create);
    match keyword.result {
        Err(error) => fail(error, keyword.rest),
        Ok(_) => {
            let what = entity(keyword.rest);
            match what.result {
                Err(error) => fail(error, what.rest),
                Ok(described) => {
                    let values = block(what.rest);
                    match values.result {
                        Err(error) => fail(error, values.rest),
                        Ok(found) => done(
                            AstView::Create(described, found),
                            accept(values.rest, TokenKind::Semicolon),
                        ),
                    }
                },
            }
        },
    }
}

/// Reads a `link` statement.
pub open spec fn link(ts: Seq<TokenView>) -> Step<AstView> {
    let keyword = expect(ts, TokenKind::Link);
    match keyword.result {
        Err(error) => fail(error, keyword.rest),
        Ok(_) => {
            let left = entity(keyword.rest);
            match left.result {
                Err(error) => fail(error, left.rest),
                Ok(lhs) => {
                    let arrow = expect(left.rest, TokenKind::ArrowRight);
                    match arrow.result {
                        Err(error) => fail(error, arrow.rest),
                        Ok(_) => {
                            let right = entity(arrow.rest);
                            match right.result {
                                Err(error) => fail(error, right.rest),
                                Ok(rhs) => done(AstView::Link(lhs, rhs), right.rest),
                            }
                        },
                    }
                },
            }
        },
    }
}

/// Reads one statement. The first token decides which; a token that starts
/// none is reported and not read.
pub open spec fn statement(ts: Seq<TokenView>) -> Step<AstView> {
    if ts.len() == 0 {
        fail(ParseErrorView::UnexpectedEOF, ts)
    } else {
        match ts[0] {
            TokenView::Select => select(ts),
            TokenView::Create => create(ts),
            TokenView::Link => link(ts),
            other => fail(ParseErrorView::UnexpectedToken(other), ts),
        }
    }
}

} // verus!

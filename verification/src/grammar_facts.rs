//! What holds of every rule of the grammar: a rule reads tokens from the
//! front and leaves the others as they are, a path gets a hop for each arrow
//! that is read and no other, and the statements made of scanned tokens are
//! well formed.

use crate::ast::{EntityView, ValueView};
use crate::grammar::{
    accept, base, block, condition, create, entity, expect, expression, fields, hops, identifier,
    link, operator, pair, pairs, path, projection, select, select_tail, statement, value,
};
use crate::token::{TokenKind, TokenView};
use vstd::prelude::*;

verus! {

/// Whether `rest` is what is left of `ts` after some tokens at its front.
pub open spec fn is_suffix(rest: Seq<TokenView>, ts: Seq<TokenView>) -> bool {
    rest.len() <= ts.len() && rest == ts.skip(ts.len() - rest.len())
}

/// The tokens themselves, and the tokens after the first, are suffixes.
proof fn lemma_suffix_skip(ts: Seq<TokenView>)
    ensures
        is_suffix(ts, ts),
        ts.len() > 0 ==> is_suffix(ts.skip(1), ts),
{
    assert(ts.skip(0) == ts);
}

/// A suffix of a suffix is a suffix.
proof fn lemma_suffix_trans(a: Seq<TokenView>, b: Seq<TokenView>, c: Seq<TokenView>)
    requires
        is_suffix(a, b),
        is_suffix(b, c),
    ensures
        is_suffix(a, c),
{
    assert(c.skip(c.len() - b.len()).skip(b.len() - a.len()) == c.skip(c.len() - a.len()));
}

/// The rules that read at most one token leave a suffix.
proof fn lemma_simple_rests(ts: Seq<TokenView>, kind: TokenKind)
    ensures
        is_suffix(expect(ts, kind).rest, ts),
        is_suffix(accept(ts, kind), ts),
        is_suffix(identifier(ts).rest, ts),
        is_suffix(operator(ts).rest, ts),
        is_suffix(value(ts).rest, ts),
{
    lemma_suffix_skip(ts);
}

/// An entity is read from the front of the tokens.
pub proof fn lemma_entity_rest(ts: Seq<TokenView>)
    ensures
        is_suffix(entity(ts).rest, ts),
{
    let typename = identifier(ts);
    lemma_simple_rests(ts, TokenKind::Colon);
    lemma_simple_rests(typename.rest, TokenKind::Colon);
    lemma_suffix_trans(accept(typename.rest, TokenKind::Colon), typename.rest, ts);
    lemma_simple_rests(accept(typename.rest, TokenKind::Colon), TokenKind::Colon);
    lemma_suffix_trans(
        identifier(accept(typename.rest, TokenKind::Colon)).rest,
        accept(typename.rest, TokenKind::Colon),
        ts,
    );
}

/// The hops of a path are read from the front of the tokens.
pub proof fn lemma_hops_rest(ts: Seq<TokenView>, found: Seq<EntityView>)
    ensures
        is_suffix(hops(ts, found).rest, ts),
    decreases ts.len(),
{
    lemma_suffix_skip(ts);
    if ts.len() > 0 && ts[0] == TokenView::ArrowRight {
        let hop = entity(ts.skip(1));
        lemma_entity_rest(ts.skip(1));
        lemma_suffix_trans(hop.rest, ts.skip(1), ts);
        if hop.result is Ok {
            lemma_hops_rest(hop.rest, found.push(hop.result->Ok_0));
            lemma_suffix_trans(hops(ts, found).rest, hop.rest, ts);
        }
    }
}

/// A path is read from the front of the tokens.
pub proof fn lemma_path_rest(ts: Seq<TokenView>)
    ensures
        is_suffix(path(ts).rest, ts),
{
    let source = entity(ts);
    lemma_entity_rest(ts);
    if source.result is Ok {
        lemma_hops_rest(source.rest, seq![]);
        lemma_suffix_trans(hops(source.rest, seq![]).rest, source.rest, ts);
    }
}

/// Field names are read from the front of the tokens.
pub proof fn lemma_fields_rest(ts: Seq<TokenView>, found: Seq<Seq<char>>)
    ensures
        is_suffix(fields(ts, found).rest, ts),
    decreases ts.len(),
{
    lemma_suffix_skip(ts);
    if ts.len() > 0 && ts[0] is Identifier {
        let after = ts.skip(1);
        lemma_suffix_skip(after);
        if after.len() > 0 {
            lemma_suffix_trans(after.skip(1), after, ts);
            if after[0].kind() == TokenKind::Comma {
                lemma_fields_rest(after.skip(1), found.push(ts[0]->Identifier_0));
                lemma_suffix_trans(fields(ts, found).rest, after.skip(1), ts);
            }
        }
    }
}

/// A projection is read from the front of the tokens.
pub proof fn lemma_projection_rest(ts: Seq<TokenView>)
    ensures
        is_suffix(projection(ts).rest, ts),
{
    lemma_suffix_skip(ts);
    lemma_fields_rest(ts, seq![]);
}

/// A key/value pair is read from the front of the tokens.
pub proof fn lemma_pair_rest(ts: Seq<TokenView>)
    ensures
        is_suffix(pair(ts).rest, ts),
{
    let key = identifier(ts);
    lemma_simple_rests(ts, TokenKind::Equals);
    let equals = expect(key.rest, TokenKind::Equals);
    lemma_simple_rests(key.rest, TokenKind::Equals);
    lemma_suffix_trans(equals.rest, key.rest, ts);
    lemma_simple_rests(equals.rest, TokenKind::Equals);
    lemma_suffix_trans(value(equals.rest).rest, equals.rest, ts);
}

/// Key/value pairs are read from the front of the tokens.
pub proof fn lemma_pairs_rest(ts: Seq<TokenView>, found: Map<Seq<char>, ValueView>)
    ensures
        is_suffix(pairs(ts, found).rest, ts),
    decreases ts.len(),
{
    lemma_suffix_skip(ts);
    if !(ts.len() == 0 || ts[0] == TokenView::RBrace) {
        let next = pair(ts);
        lemma_pair_rest(ts);
        if next.result is Ok {
            let entry = next.result->Ok_0;
            lemma_suffix_skip(next.rest);
            if next.rest.len() > 0 && next.rest[0].kind() == TokenKind::Comma {
                lemma_suffix_trans(next.rest.skip(1), next.rest, ts);
                lemma_pairs_rest(next.rest.skip(1), found.insert(entry.0, entry.1));
                lemma_suffix_trans(pairs(ts, found).rest, next.rest.skip(1), ts);
            }
        }
    }
}

/// A block is read from the front of the tokens.
pub proof fn lemma_block_rest(ts: Seq<TokenView>)
    ensures
        is_suffix(block(ts).rest, ts),
{
    let open = expect(ts, TokenKind::LBrace);
    lemma_simple_rests(ts, TokenKind::LBrace);
    if open.result is Ok {
        let body = pairs(open.rest, Map::empty());
        lemma_pairs_rest(open.rest, Map::empty());
        lemma_suffix_trans(body.rest, open.rest, ts);
        if body.result is Ok {
            lemma_simple_rests(body.rest, TokenKind::RBrace);
            lemma_suffix_trans(expect(body.rest, TokenKind::RBrace).rest, body.rest, ts);
        }
    }
}

/// What a filter expression leaves is a suffix of what it was given; so it is
/// no longer, which is what the rule for `and` and `or` asks.
pub proof fn lemma_expression_rest(ts: Seq<TokenView>)
    ensures
        is_suffix(base(ts).rest, ts),
        is_suffix(expression(ts).rest, ts),
    decreases ts.len(),
{
    lemma_suffix_skip(ts);
    if ts.len() > 0 {
        let after = ts.skip(1);
        if ts[0] is LParen {
            lemma_expression_rest(after);
            let inner = expression(after);
            lemma_suffix_trans(inner.rest, after, ts);
            lemma_simple_rests(inner.rest, TokenKind::RParen);
            lemma_suffix_trans(expect(inner.rest, TokenKind::RParen).rest, inner.rest, ts);
        } else if ts[0] is Identifier {
            let comparison = operator(after);
            lemma_simple_rests(after, TokenKind::RParen);
            lemma_suffix_trans(comparison.rest, after, ts);
            lemma_simple_rests(comparison.rest, TokenKind::RParen);
            lemma_suffix_trans(value(comparison.rest).rest, comparison.rest, ts);
        }
        let left = base(ts);
        if left.result is Ok && left.rest.len() > 0 {
            lemma_suffix_skip(left.rest);
            lemma_suffix_trans(left.rest.skip(1), left.rest, ts);
            lemma_expression_rest(left.rest.skip(1));
            lemma_suffix_trans(expression(left.rest.skip(1)).rest, left.rest.skip(1), ts);
        }
    }
}

/// A condition, and what follows the path of a `select` statement, are read
/// from the front of the tokens.
pub proof fn lemma_condition_rest(ts: Seq<TokenView>)
    ensures
        is_suffix(condition(ts).rest, ts),
        is_suffix(select_tail(ts).rest, ts),
{
    lemma_suffix_skip(ts);
    let keyword = expect(ts, TokenKind::Where);
    lemma_simple_rests(ts, TokenKind::Where);
    if keyword.result is Ok {
        let filter = expression(keyword.rest);
        lemma_expression_rest(keyword.rest);
        lemma_suffix_trans(filter.rest, keyword.rest, ts);
        lemma_simple_rests(filter.rest, TokenKind::Semicolon);
        lemma_suffix_trans(accept(filter.rest, TokenKind::Semicolon), filter.rest, ts);
    }
}

/// Every statement rule reads tokens from the front of the tokens it is
/// given and leaves the others as they are.
pub proof fn lemma_statement_rest(ts: Seq<TokenView>)
    ensures
        is_suffix(select(ts).rest, ts),
        is_suffix(create(ts).rest, ts),
        is_suffix(link(ts).rest, ts),
        is_suffix(statement(ts).rest, ts),
{
    lemma_suffix_skip(ts);
    assert(is_suffix(select(ts).rest, ts)) by {
        let keyword = expect(ts, TokenKind::Select);
        lemma_simple_rests(ts, TokenKind::Select);
        let what = projection(keyword.rest);
        lemma_projection_rest(keyword.rest);
        lemma_suffix_trans(what.rest, keyword.rest, ts);
        let from = expect(what.rest, TokenKind::From);
        lemma_simple_rests(what.rest, TokenKind::From);
        lemma_suffix_trans(from.rest, what.rest, ts);
        let route = path(from.rest);
        lemma_path_rest(from.rest);
        lemma_suffix_trans(route.rest, from.rest, ts);
        lemma_condition_rest(route.rest);
        lemma_suffix_trans(select_tail(route.rest).rest, route.rest, ts);
    }
    assert(is_suffix(create(ts).rest, ts)) by {
        let keyword = expect(ts, TokenKind::Create);
        lemma_simple_rests(ts, TokenKind::Create);
        let what = entity(keyword.rest);
        lemma_entity_rest(keyword.rest);
        lemma_suffix_trans(what.rest, keyword.rest, ts);
        let values = block(what.rest);
        lemma_block_rest(what.rest);
        lemma_suffix_trans(values.rest, what.rest, ts);
        lemma_simple_rests(values.rest, TokenKind::Semicolon);
        lemma_suffix_trans(accept(values.rest, TokenKind::Semicolon), values.rest, ts);
    }
    assert(is_suffix(link(ts).rest, ts)) by {
        let keyword = expect(ts, TokenKind::Link);
        lemma_simple_rests(ts, TokenKind::Link);
        let left = entity(keyword.rest);
        lemma_entity_rest(keyword.rest);
        lemma_suffix_trans(left.rest, keyword.rest, ts);
        let arrow = expect(left.rest, TokenKind::ArrowRight);
        lemma_simple_rests(left.rest, TokenKind::ArrowRight);
        lemma_suffix_trans(arrow.rest, left.rest, ts);
        lemma_entity_rest(arrow.rest);
        lemma_suffix_trans(entity(arrow.rest).rest, arrow.rest, ts);
    }
}

/// The tokens that have been read from `ts` when `rest` is left.
pub open spec fn read(ts: Seq<TokenView>, rest: Seq<TokenView>) -> Seq<TokenView> {
    ts.take(ts.len() - rest.len())
}

/// The number of right arrows among `ts`.
pub open spec fn arrows(ts: Seq<TokenView>) -> nat
    decreases ts.len(),
{
    if ts.len() == 0 {
        0
    } else if ts[0] == TokenView::ArrowRight {
        1 + arrows(ts.drop_first())
    } else {
        arrows(ts.drop_first())
    }
}

/// The arrows of two sequences of tokens, one after the other, are those of
/// the one and those of the other.
proof fn lemma_arrows_concat(a: Seq<TokenView>, b: Seq<TokenView>)
    ensures
        arrows(a + b) == arrows(a) + arrows(b),
    decreases a.len(),
{
    if a.len() == 0 {
        assert(a + b == b);
    } else {
        assert((a + b).drop_first() == a.drop_first() + b);
        lemma_arrows_concat(a.drop_first(), b);
    }
}

/// What is read up to a later point is what is read up to an earlier point
/// and, after it, what is read from there.
proof fn lemma_read_concat(ts: Seq<TokenView>, mid: Seq<TokenView>, rest: Seq<TokenView>)
    requires
        is_suffix(mid, ts),
        is_suffix(rest, mid),
    ensures
        read(ts, rest) == read(ts, mid) + read(mid, rest),
{
}

/// An entity is read from identifiers and a colon: no arrow is among them.
proof fn lemma_entity_arrows(ts: Seq<TokenView>)
    ensures
        entity(ts).result is Ok ==> arrows(read(ts, entity(ts).rest)) == 0,
{
    reveal_with_fuel(arrows, 4);
    lemma_entity_rest(ts);
    let gone = read(ts, entity(ts).rest);
    if entity(ts).result is Ok {
        assert(gone.len() == 1 || gone.len() == 3);
        assert(gone[0] == ts[0]);
        if gone.len() == 3 {
            assert(gone.drop_first()[0] == ts[1]);
            assert(gone.drop_first().drop_first()[0] == ts[2]);
            assert(ts[1] == ts.skip(1)[0]);
            assert(ts[2] == ts.skip(1).skip(1)[0]);
        }
    }
}

/// Every hop of a path has been read after an arrow of its own: the path has
/// as many hops as arrows were read.
proof fn lemma_hops_arrows(ts: Seq<TokenView>, found: Seq<EntityView>)
    ensures
        hops(ts, found).result matches Ok(all) ==> all.len() == found.len() + arrows(
            read(ts, hops(ts, found).rest),
        ),
    decreases ts.len(),
{
    lemma_hops_rest(ts, found);
    if ts.len() > 0 && ts[0] == TokenView::ArrowRight {
        let after = ts.skip(1);
        let hop = entity(after);
        if hop.result is Ok {
            let last = hops(ts, found).rest;
            lemma_suffix_skip(ts);
            lemma_entity_rest(after);
            lemma_entity_arrows(after);
            lemma_hops_rest(hop.rest, found.push(hop.result->Ok_0));
            lemma_hops_arrows(hop.rest, found.push(hop.result->Ok_0));
            if hops(ts, found).result is Ok {
                lemma_suffix_trans(hop.rest, after, ts);
                lemma_suffix_trans(last, hop.rest, after);
                lemma_read_concat(ts, after, last);
                lemma_read_concat(after, hop.rest, last);
                lemma_arrows_concat(read(ts, after), read(after, last));
                lemma_arrows_concat(read(after, hop.rest), read(hop.rest, last));
                assert(read(ts, after) == seq![TokenView::ArrowRight]);
                assert(arrows(seq![TokenView::ArrowRight]) == 1) by {
                    reveal_with_fuel(arrows, 2);
                }
            }
        }
    } else if ts.len() > 0 {
        assert(read(ts, ts) == Seq::<TokenView>::empty());
    }
}

/// A path holds as many hops as right arrows were read for it.
pub proof fn lemma_path_arrows(ts: Seq<TokenView>)
    ensures
        path(ts).result matches Ok(found) ==> found.hops.len() == arrows(read(ts, path(ts).rest)),
{
    let source = entity(ts);
    if source.result is Ok {
        let last = hops(source.rest, seq![]).rest;
        lemma_entity_rest(ts);
        lemma_entity_arrows(ts);
        lemma_hops_rest(source.rest, seq![]);
        lemma_hops_arrows(source.rest, seq![]);
        if path(ts).result is Ok {
            lemma_read_concat(ts, source.rest, last);
            lemma_arrows_concat(read(ts, source.rest), read(source.rest, last));
        }
    }
}

/// Whether no identifier among `ts` is empty.
pub open spec fn named(ts: Seq<TokenView>) -> bool {
    forall|k: int|
        0 <= k < ts.len() ==> ((#[trigger] ts[k]) matches TokenView::Identifier(name)
            ==> name.len() > 0)
}

/// Where no identifier is empty, none is in a suffix.
proof fn lemma_named_suffix(rest: Seq<TokenView>, ts: Seq<TokenView>)
    requires
        named(ts),
        is_suffix(rest, ts),
    ensures
        named(rest),
{
    assert forall|k: int| 0 <= k < rest.len() implies ((
    #[trigger] rest[k]) matches TokenView::Identifier(name) ==> name.len() > 0) by {
        assert(rest[k] == ts[k + ts.len() - rest.len()]);
    }
}

/// An entity that is read from tokens without an empty identifier has a type
/// name.
proof fn lemma_entity_wf(ts: Seq<TokenView>)
    requires
        named(ts),
    ensures
        entity(ts).result matches Ok(found) ==> found.wf(),
{
}

/// The hops that are read after well-formed hops are well formed.
proof fn lemma_hops_wf(ts: Seq<TokenView>, found: Seq<EntityView>)
    requires
        named(ts),
        forall|k: int| 0 <= k < found.len() ==> (#[trigger] found[k]).wf(),
    ensures
        hops(ts, found).result matches Ok(all) ==> forall|k: int|
            0 <= k < all.len() ==> (#[trigger] all[k]).wf(),
    decreases ts.len(),
{
    if ts.len() > 0 && ts[0] == TokenView::ArrowRight {
        let hop = entity(ts.skip(1));
        lemma_suffix_skip(ts);
        lemma_named_suffix(ts.skip(1), ts);
        lemma_entity_wf(ts.skip(1));
        lemma_entity_rest(ts.skip(1));
        lemma_named_suffix(hop.rest, ts.skip(1));
        if hop.result is Ok {
            lemma_hops_wf(hop.rest, found.push(hop.result->Ok_0));
        }
    }
}

/// Reading field names loses none of those found before.
proof fn lemma_fields_found(ts: Seq<TokenView>, found: Seq<Seq<char>>)
    ensures
        fields(ts, found).result matches Ok(all) ==> all.len() >= found.len(),
    decreases ts.len(),
{
    if ts.len() > 0 && ts[0] is Identifier {
        let after = ts.skip(1);
        if after.len() > 0 && after[0].kind() == TokenKind::Comma {
            lemma_fields_found(after.skip(1), found.push(ts[0]->Identifier_0));
        }
    }
}

/// Reading pairs into a finite map gives a finite map.
proof fn lemma_pairs_finite(ts: Seq<TokenView>, found: Map<Seq<char>, ValueView>)
    requires
        found.dom().finite(),
    ensures
        pairs(ts, found).result matches Ok(all) ==> all.dom().finite(),
    decreases ts.len(),
{
    if !(ts.len() == 0 || ts[0] == TokenView::RBrace) {
        let next = pair(ts);
        if next.result is Ok {
            let entry = next.result->Ok_0;
            if next.rest.len() > 0 && next.rest[0].kind() == TokenKind::Comma {
                lemma_pairs_finite(next.rest.skip(1), found.insert(entry.0, entry.1));
            }
        }
    }
}

/// A statement that is read from tokens without an empty identifier is well
/// formed: each of its entities has a type name, a list of fields is not
/// empty, and there are finitely many key/value pairs.
pub proof fn lemma_statement_wf(ts: Seq<TokenView>)
    requires
        named(ts),
    ensures
        statement(ts).result matches Ok(found) ==> found.wf(),
{
    lemma_suffix_skip(ts);
    if ts.len() > 0 {
        let after = ts.skip(1);
        lemma_named_suffix(after, ts);
        if ts[0] == TokenView::Select {
            let what = projection(after);
            lemma_projection_rest(after);
            lemma_fields_found(after, seq![]);
            let from = expect(what.rest, TokenKind::From);
            lemma_simple_rests(what.rest, TokenKind::From);
            lemma_suffix_trans(from.rest, what.rest, after);
            lemma_named_suffix(from.rest, after);
            let source = entity(from.rest);
            lemma_entity_wf(from.rest);
            lemma_entity_rest(from.rest);
            lemma_named_suffix(source.rest, from.rest);
            lemma_hops_wf(source.rest, seq![]);
        } else if ts[0] == TokenView::Create {
            lemma_entity_wf(after);
            let what = entity(after);
            let open = expect(what.rest, TokenKind::LBrace);
            lemma_pairs_finite(open.rest, Map::empty());
        } else if ts[0] == TokenView::Link {
            lemma_entity_wf(after);
            let left = entity(after);
            lemma_entity_rest(after);
            let arrow = expect(left.rest, TokenKind::ArrowRight);
            lemma_simple_rests(left.rest, TokenKind::ArrowRight);
            lemma_suffix_trans(arrow.rest, left.rest, after);
            lemma_named_suffix(arrow.rest, after);
            lemma_entity_wf(arrow.rest);
        }
    }
}

} // verus!

//! The parser: reads one statement from the tokens of a text.

use crate::ast::{
    AstView, EntityDescription, EntityView, FilterExpression, Operator, ParseError, ParseErrorView,
    PathExpression, Projection, Value, AST,
};
use crate::grammar::{
    accept, base, block, condition, create, entity, expect, expression, fields, hops, identifier,
    link, operator, pair, pairs, path, projection, select, statement, value, Step,
};
use crate::grammar_facts::{lemma_expression_rest, lemma_statement_wf, named};
use crate::lexer::Lexer;
use crate::mapping::Mapping;
use crate::scan::{lemma_tokens, tokens};
use crate::span::Span;
use crate::text::{symbols_of, Symbol};
use crate::tiling::{lemma_tokens_scannable, scannable};
use crate::token::{Token, TokenKind, TokenView};
use vstd::pervasive::unreached;
use vstd::prelude::*;

verus! {

/// Reads statements from the tokens that a scanner hands out.
pub struct Parser {
    input: Lexer,
}

/// Whether `result` and `rest` are what `step` gives: the value that `result`
/// holds, or its error, is the one of `step`, and `rest` is what `step` leaves.
pub open spec fn follows<T: View>(
    step: Step<T::V>,
    result: Result<T, ParseError>,
    rest: Seq<TokenView>,
) -> bool {
    &&& rest == step.rest
    &&& match step.result {
        Ok(value) => result matches Ok(made) && made@ == value,
        Err(error) => result matches Err(found) && found@ == error,
    }
}

/// What a parse has given, as a mathematical value.
pub open spec fn outcome(parsed: Result<AST, ParseError>) -> Result<AstView, ParseErrorView> {
    match parsed {
        Ok(statement) => Ok(statement@),
        Err(error) => Err(error@),
    }
}

/// The statement that `text` starts with, or why it starts with none.
pub open spec fn parse_text(text: Seq<char>) -> Result<AstView, ParseErrorView> {
    statement(tokens(symbols_of(text), 0)).result
}

/// Reads the statement that `input` starts with. What follows the statement
/// is not looked at.
pub fn parse(input: &str) -> (parsed: Result<AST, ParseError>)
    ensures
        outcome(parsed) == parse_text(input@),
        parsed matches Ok(statement) ==> statement@.wf(),
{
    proof {
        lemma_text_statement_wf(input@);
    }
    let mut parser = Parser::new(Lexer::new(input));
    parser.parse()
}

/// A statement that is read from a text is well formed.
pub proof fn lemma_text_statement_wf(text: Seq<char>)
    ensures
        parse_text(text) matches Ok(statement) ==> statement.wf(),
{
    lemma_scanned_statement_wf(symbols_of(text), 0);
}

/// A statement that is read from the tokens of a text, from any position on,
/// is well formed.
pub proof fn lemma_scanned_statement_wf(text: Seq<Symbol>, from: int)
    requires
        0 <= from <= text.len(),
    ensures
        statement(tokens(text, from)).result matches Ok(found) ==> found.wf(),
{
    lemma_tokens_scannable(text, from);
    let ts = tokens(text, from);
    assert(named(ts)) by {
        assert forall|k: int| 0 <= k < ts.len() implies ((
        #[trigger] ts[k]) matches TokenView::Identifier(name) ==> name.len() > 0) by {
            assert(scannable(ts[k]));
        }
    }
    lemma_statement_wf(ts);
}

/// Reading one text twice gives the same statement, or the same error: what
/// a parse gives depends on the text alone.
pub proof fn lemma_parse_again(
    text: Seq<char>,
    first: Result<AST, ParseError>,
    second: Result<AST, ParseError>,
)
    requires
        outcome(first) == parse_text(text),
        outcome(second) == parse_text(text),
    ensures
        outcome(first) == outcome(second),
        first is Ok <==> second is Ok,
        first matches Ok(one) ==> second matches Ok(other) && one@ == other@,
{
}

impl Parser {
    /// Whether the scanner that the parser reads from is well formed, which
    /// it always is.
    spec fn wf(&self) -> bool {
        self.input.wf()
    }

    /// The tokens that are still to be read.
    pub closed spec fn tokens(&self) -> Seq<TokenView> {
        tokens(self.input.text(), self.input.cursor())
    }

    /// A parser of the tokens that `input` has not handed out yet.
    pub fn new(input: Lexer) -> (parser: Self)
        ensures
            parser.tokens() == tokens(input.text(), input.cursor()),
    {
        Self { input }
    }

    /// Reads the next token.
    fn next(&mut self) -> (next: Option<(Token, Span)>)
        requires
            old(self).wf(),
        ensures
            final(self).wf(),
            match next {
                Some((token, _)) => {
                    &&& old(self).tokens().len() > 0
                    &&& token@ == old(self).tokens()[0]
                    &&& final(self).tokens() == old(self).tokens().skip(1)
                },
                None => old(self).tokens().len() == 0 && final(self).tokens() == old(self).tokens(),
            },
    {
        proof {
            lemma_tokens(self.input.text(), self.input.cursor());
        }
        let next = self.input.next();
        proof {
            use_type_invariant(&self.input);
        }
        next
    }

    /// Looks at the next token without reading it.
    fn peek(&mut self) -> (next: Option<(Token, Span)>)
        requires
            old(self).wf(),
        ensures
            final(self).wf(),
            final(self).tokens() == old(self).tokens(),
            match next {
                Some((token, _)) => old(self).tokens().len() > 0 && token@ == old(self).tokens()[0],
                None => old(self).tokens().len() == 0,
            },
    {
        proof {
            lemma_tokens(self.input.text(), self.input.cursor());
        }
        let next = self.input.peek_token();
        proof {
            use_type_invariant(&self.input);
        }
        next
    }

    fn expect_token_type(&mut self, kind: TokenKind) -> (found: Result<Token, ParseError>)
        requires
            old(self).wf(),
        ensures
            final(self).wf(),
            follows(expect(old(self).tokens(), kind), found, final(self).tokens()),
    {
        match self.next() {
            Some((token, _)) => {
                if token.kind() == kind {
                    Ok(token)
                } else {
                    Err(ParseError::UnexpectedToken(token))
                }
            },
            None => Err(ParseError::UnexpectedEOF),
        }
    }

    /// Reads the next token if it is of the kind `kind`.
    fn accept_token_type(&mut self, kind: TokenKind)
        requires
            old(self).wf(),
        ensures
            final(self).wf(),
            final(self).tokens() == accept(old(self).tokens(), kind),
    {
        if let Some((peeked_next, _)) = self.peek() {
            if peeked_next.kind() == kind {
                self.next();
            }
        }
    }

    /// Reads one statement. A statement that is read is well formed.
    pub fn parse(&mut self) -> (parsed: Result<AST, ParseError>)
        ensures
            follows(statement(old(self).tokens()), parsed, final(self).tokens()),
            parsed matches Ok(statement) ==> statement@.wf(),
    {
        proof {
            use_type_invariant(&self.input);
            lemma_scanned_statement_wf(self.input.text(), self.input.cursor());
        }
        let first = match self.peek() {
            Some((first, _)) => first,
            None => {
                return Err(ParseError::UnexpectedEOF);
            },
        };
        match first {
            Token::Select => self.expect_select_statement(),
            Token::Create => self.expect_create_statement(),
            Token::Link => self.expect_link_statement(),
            _ => Err(ParseError::UnexpectedToken(first)),
        }
    }

    fn expect_select_statement(&mut self) -> (parsed: Result<AST, ParseError>)
        requires
            old(self).wf(),
        ensures
            final(self).wf(),
            follows(select(old(self).tokens()), parsed, final(self).tokens()),
    {
        self.expect_token_type(TokenKind::Select)?;
        let projection = self.expect_projection()?;
        self.expect_token_type(TokenKind::From)?;
        let path_expression = self.expect_path_expression()?;
        if let Some((token, _)) = self.peek() {
            match token {
                Token::Semicolon => {
                    self.next();
                    return Ok(AST::Select(projection, path_expression, None));
                },
                _ => {
                    let filter_expression = self.expect_filter_condition()?;
                    return Ok(AST::Select(projection, path_expression, Some(filter_expression)));
                },
            }
        }
        Err(ParseError::UnexpectedEOF)
    }

    fn expect_create_statement(&mut self) -> (parsed: Result<AST, ParseError>)
        requires
            old(self).wf(),
        ensures
            final(self).wf(),
            follows(create(old(self).tokens()), parsed, final(self).tokens()),
    {
        self.expect_token_type(TokenKind::Create)?;
        let entity_description = self.expect_entity_description()?;
        let values = self.expect_key_value_pairs()?;
        self.accept_token_type(TokenKind::Semicolon);
        Ok(AST::Create(entity_description, values))
    }

    fn expect_link_statement(&mut self) -> (parsed: Result<AST, ParseError>)
        requires
            old(self).wf(),
        ensures
            final(self).wf(),
            follows(link(old(self).tokens()), parsed, final(self).tokens()),
    {
        self.expect_token_type(TokenKind::Link)?;
        let lhs_entity_description = self.expect_entity_description()?;
        self.expect_token_type(TokenKind::ArrowRight)?;
        let rhs_entity_description = self.expect_entity_description()?;
        Ok(AST::Link(lhs_entity_description, rhs_entity_description))
    }

    #[verifier::loop_isolation(false)]
    fn expect_projection(&mut self) -> (found: Result<Projection, ParseError>)
        requires
            old(self).wf(),
        ensures
            final(self).wf(),
            follows(projection(old(self).tokens()), found, final(self).tokens()),
    {
        let ghost start = self.tokens();
        match self.peek() {
            Some((token, _)) => {
                if let Token::Asterisk = token {
                    self.next();
                    return Ok(Projection::All);
                }
                let mut names: Vec<String> = Vec::new();
                assert(names@.map_values(|name: String| name@) == Seq::<Seq<char>>::empty());
                loop
                    invariant
                        self.wf(),
                        fields(self.tokens(), names@.map_values(|name: String| name@)) == fields(
                            start,
                            seq![],
                        ),
                    decreases self.tokens().len(),
                {
                    let ghost before = names@.map_values(|name: String| name@);
                    // look first, and read only an identifier, so that the token
                    // that follows the projection is left in place
                    let token = match self.peek() {
                        Some((token, _)) => token,
                        None => {
                            return Err(ParseError::UnexpectedEOF);
                        },
                    };
                    if let Token::Identifier(field) = token {
                        names.push(field);
                        assert(names@.map_values(|name: String| name@) == before.push(field@));
                        self.next();
                        if let Some((peeked_next, _)) = self.peek() {
                            if peeked_next.kind() == TokenKind::Comma {
                                self.next();
                                continue ;
                            }
                        }
                        break ;
                    } else {
                        break ;
                    }
                }
                if names.len() == 0 {
                    return Err(ParseError::InvalidProjection);
                }
                Ok(Projection::Fields(names))
            },
            None => Err(ParseError::UnexpectedEOF),
        }
    }

    #[verifier::loop_isolation(false)]
    fn expect_path_expression(&mut self) -> (found: Result<PathExpression, ParseError>)
        requires
            old(self).wf(),
        ensures
            final(self).wf(),
            follows(path(old(self).tokens()), found, final(self).tokens()),
    {
        let source = self.expect_entity_description()?;
        let ghost start = self.tokens();
        let mut steps: Vec<EntityDescription> = Vec::new();
        assert(steps@.map_values(|hop: EntityDescription| hop@) == Seq::<EntityView>::empty());
        loop
            invariant
                self.wf(),
                hops(self.tokens(), steps@.map_values(|hop: EntityDescription| hop@)) == hops(
                    start,
                    seq![],
                ),
            decreases self.tokens().len(),
        {
            let ghost before = steps@.map_values(|hop: EntityDescription| hop@);
            if let Some((peeked_next, _)) = self.peek() {
                match peeked_next {
                    Token::ArrowRight => {
                        self.next();
                        let step = self.expect_entity_description()?;
                        steps.push(step);
                        assert(steps@.map_values(|hop: EntityDescription| hop@) == before.push(
                            step@,
                        ));
                        continue ;
                    },
                    _ => {
                        break ;
                    },
                }
            } else {
                return Err(ParseError::UnexpectedEOF);
            }
        }
        Ok(PathExpression(source, steps))
    }

    fn expect_entity_description(&mut self) -> (found: Result<EntityDescription, ParseError>)
        requires
            old(self).wf(),
        ensures
            final(self).wf(),
            follows(entity(old(self).tokens()), found, final(self).tokens()),
    {
        let typename = self.expect_token_type(TokenKind::Identifier)?;
        if let Some((peeked_next, _)) = self.peek() {
            if peeked_next.kind() == TokenKind::Colon {
                self.next();
                let id = self.expect_token_type(TokenKind::Identifier)?;
                if let Token::Identifier(id) = id {
                    if let Token::Identifier(typename) = typename {
                        return Ok(EntityDescription::WithId(id, typename));
                    }
                }
                unreached()
            } else {
                self.no_colon(typename)
            }
        } else {
            self.no_colon(typename)
        }
    }

    fn expect_filter_condition(&mut self) -> (found: Result<FilterExpression, ParseError>)
        requires
            old(self).wf(),
        ensures
            final(self).wf(),
            follows(condition(old(self).tokens()), found, final(self).tokens()),
    {
        self.expect_token_type(TokenKind::Where)?;
        let filter_expression = self.expect_expression()?;
        self.accept_token_type(TokenKind::Semicolon);
        Ok(filter_expression)
    }

    fn expect_expression(&mut self) -> (found: Result<FilterExpression, ParseError>)
        requires
            old(self).wf(),
        ensures
            final(self).wf(),
            follows(expression(old(self).tokens()), found, final(self).tokens()),
        decreases old(self).tokens().len(), 1nat,
    {
        proof {
            lemma_expression_rest(self.tokens());
        }
        let expression = self.expect_base_expression()?;
        match self.peek() {
            Some((Token::And, _)) => {
                self.next();
                let rhs = self.expect_expression()?;
                Ok(FilterExpression::And(Box::new(expression), Box::new(rhs)))
            },
            Some((Token::Or, _)) => {
                self.next();
                let rhs = self.expect_expression()?;
                Ok(FilterExpression::Or(Box::new(expression), Box::new(rhs)))
            },
            _ => Ok(expression),
        }
    }

    fn expect_base_expression(&mut self) -> (found: Result<FilterExpression, ParseError>)
        requires
            old(self).wf(),
        ensures
            final(self).wf(),
            follows(base(old(self).tokens()), found, final(self).tokens()),
        decreases old(self).tokens().len(), 0nat,
    {
        match self.next() {
            Some((Token::LParen, _)) => {
                let expression = self.expect_expression()?;
                self.expect_token_type(TokenKind::RParen)?;
                Ok(expression)
            },
            Some((token, _)) => {
                if let Token::Identifier(identifier) = token {
                    let operator = self.expect_operator()?;
                    let value = self.expect_value()?;
                    Ok(FilterExpression::Plain(identifier, operator, value))
                } else {
                    Err(ParseError::UnexpectedToken(token))
                }
            },
            None => Err(ParseError::UnexpectedEOF),
        }
    }

    fn expect_operator(&mut self) -> (found: Result<Operator, ParseError>)
        requires
            old(self).wf(),
        ensures
            final(self).wf(),
            follows(operator(old(self).tokens()), found, final(self).tokens()),
    {
        match self.next() {
            Some((token, _)) => match Operator::try_from(token.clone()) {
                Ok(operator) => Ok(operator),
                Err(_) => Err(ParseError::UnexpectedToken(token)),
            },
            None => Err(ParseError::UnexpectedEOF),
        }
    }

    fn expect_value(&mut self) -> (found: Result<Value, ParseError>)
        requires
            old(self).wf(),
        ensures
            final(self).wf(),
            follows(value(old(self).tokens()), found, final(self).tokens()),
    {
        match self.next() {
            Some((token, _)) => match Value::try_from(token.clone()) {
                Ok(value) => Ok(value),
                Err(_) => Err(ParseError::UnexpectedToken(token)),
            },
            None => Err(ParseError::UnexpectedEOF),
        }
    }

    #[verifier::loop_isolation(false)]
    fn expect_key_value_pairs(&mut self) -> (found: Result<Mapping, ParseError>)
        requires
            old(self).wf(),
        ensures
            final(self).wf(),
            follows(block(old(self).tokens()), found, final(self).tokens()),
    {
        let mut values = Mapping::new();
        self.expect_token_type(TokenKind::LBrace)?;
        let ghost start = self.tokens();
        loop
            invariant
                self.wf(),
                pairs(self.tokens(), values@) == pairs(start, Map::empty()),
            decreases self.tokens().len(),
        {
            match self.peek() {
                Some((Token::RBrace, _)) => {
                    break ;
                },
                Some((_, _)) => {
                    let pair = self.expect_key_value_pair()?;
                    values.insert(pair.0, pair.1);
                    if let Some((Token::Comma, _)) = self.peek() {
                        self.next();
                        continue ;
                    } else {
                        break ;
                    }
                },
                None => {
                    break ;
                },
            }
        }
        self.expect_token_type(TokenKind::RBrace)?;
        Ok(values)
    }

    fn expect_key_value_pair(&mut self) -> (found: Result<(String, Value), ParseError>)
        requires
            old(self).wf(),
        ensures
            final(self).wf(),
            follows(pair(old(self).tokens()), found, final(self).tokens()),
    {
        let key = if let Token::Identifier(identifier) = self.expect_token_type(
            TokenKind::Identifier,
        )? {
            identifier
        } else {
            unreached()
        };
        self.expect_token_type(TokenKind::Equals)?;
        let value = self.expect_value()?;
        Ok((key, value))
    }

    /// The entity that a type name alone describes.
    fn no_colon(&self, typename: Token) -> (found: Result<EntityDescription, ParseError>)
        requires
            typename@ is Identifier,
        ensures
            found matches Ok(made) && made@ == EntityView::NoId(typename@->Identifier_0),
    {
        if let Token::Identifier(typename) = typename {
            return Ok(EntityDescription::NoId(typename));
        }
        unreached()
    }
}

} // verus!

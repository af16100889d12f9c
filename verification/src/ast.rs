//! The statements of the query language, as the parser builds them.

use crate::mapping::Mapping;
use crate::token::{Token, TokenView};
use vstd::prelude::*;
use vstd::std_specs::cmp::PartialEqSpecImpl;
use vstd::std_specs::convert::TryFromSpecImpl;

verus! {

/// How a filter compares a field with a value.
#[derive(Debug, Clone, Copy, PartialEq, Eq, Structural)]
pub enum Operator {
    Equals,
    NotEquals,
    SmallerThan,
    GreaterThan,
    SmallerThanOrEqual,
    GreaterThanOrEqual,
    /// Pattern match against a string value.
    Like,
}

impl View for Operator {
    type V = Operator;

    open spec fn view(&self) -> Operator {
        *self
    }
}

/// The operator that a token stands for, if it stands for one.
pub open spec fn operator_of(token: TokenView) -> Option<Operator> {
    match token {
        TokenView::Equals => Some(Operator::Equals),
        TokenView::NotEquals => Some(Operator::NotEquals),
        TokenView::SmallerThan => Some(Operator::SmallerThan),
        TokenView::GreaterThan => Some(Operator::GreaterThan),
        TokenView::SmallerThanOrEquals => Some(Operator::SmallerThanOrEqual),
        TokenView::GreaterThanOrEquals => Some(Operator::GreaterThanOrEqual),
        TokenView::Like => Some(Operator::Like),
        _ => None,
    }
}

impl TryFrom<Token> for Operator {
    type Error = ();

    fn try_from(value: Token) -> (operator: Result<Self, ()>) {
        match value {
            Token::Equals => Ok(Operator::Equals),
            Token::NotEquals => Ok(Operator::NotEquals),
            Token::SmallerThan => Ok(Operator::SmallerThan),
            Token::GreaterThan => Ok(Operator::GreaterThan),
            Token::SmallerThanOrEquals => Ok(Operator::SmallerThanOrEqual),
            Token::GreaterThanOrEquals => Ok(Operator::GreaterThanOrEqual),
            Token::Like => Ok(Operator::Like),
            _ => Err(()),
        }
    }
}

impl TryFromSpecImpl<Token> for Operator {
    open spec fn obeys_try_from_spec() -> bool {
        true
    }

    open spec fn try_from_spec(value: Token) -> Result<Self, ()> {
        match operator_of(value@) {
            Some(operator) => Ok(operator),
            None => Err(()),
        }
    }
}

/// A literal value. A floating-point value is kept as the text of its
/// literal: digits, a dot, digits.
#[derive(Debug)]
pub enum Value {
    String(String),
    Int(usize),
    Float(String),
}

/// The mathematical value of a [`Value`].
pub enum ValueView {
    String(Seq<char>),
    Int(nat),
    Float(Seq<char>),
}

impl View for Value {
    type V = ValueView;

    open spec fn view(&self) -> ValueView {
        match self {
            Value::String(text) => ValueView::String(text@),
            Value::Int(number) => ValueView::Int(*number as nat),
            Value::Float(text) => ValueView::Float(text@),
        }
    }
}

/// The value that a literal token stands for, if the token is a literal.
pub open spec fn value_of(token: TokenView) -> Option<ValueView> {
    match token {
        TokenView::StringLiteral(text) => Some(ValueView::String(text)),
        TokenView::IntLiteral(number) => Some(ValueView::Int(number)),
        TokenView::FloatLiteral(text) => Some(ValueView::Float(text)),
        _ => None,
    }
}

impl Clone for Value {
    fn clone(&self) -> (copy: Self)
        ensures
            copy@ == self@,
    {
        match self {
            Value::String(text) => Value::String(text.clone()),
            Value::Int(number) => Value::Int(*number),
            Value::Float(text) => Value::Float(text.clone()),
        }
    }
}

impl PartialEq for Value {
    fn eq(&self, other: &Self) -> (equal: bool) {
        match (self, other) {
            (Value::String(a), Value::String(b)) => *a == *b,
            (Value::Int(a), Value::Int(b)) => *a == *b,
            (Value::Float(a), Value::Float(b)) => *a == *b,
            _ => false,
        }
    }
}

impl PartialEqSpecImpl for Value {
    open spec fn obeys_eq_spec() -> bool {
        true
    }

    open spec fn eq_spec(&self, other: &Self) -> bool {
        self@ == other@
    }
}

impl TryFrom<Token> for Value {
    type Error = ();

    fn try_from(value: Token) -> (literal: Result<Self, ()>)
        ensures
            match value_of(value@) {
                Some(found) => literal matches Ok(made) && made@ == found,
                None => literal is Err,
            },
    {
        match value {
            Token::StringLiteral(string) => Ok(Value::String(string)),
            Token::IntLiteral(number) => Ok(Value::Int(number)),
            Token::FloatLiteral(text) => Ok(Value::Float(text)),
            _ => Err(()),
        }
    }
}

impl TryFromSpecImpl<Token> for Value {
    open spec fn obeys_try_from_spec() -> bool {
        true
    }

    open spec fn try_from_spec(value: Token) -> Result<Self, ()> {
        match value {
            Token::StringLiteral(string) => Ok(Value::String(string)),
            Token::IntLiteral(number) => Ok(Value::Int(number)),
            Token::FloatLiteral(text) => Ok(Value::Float(text)),
            _ => Err(()),
        }
    }
}

/// A type name, with the identifier of one instance of the type or without.
#[derive(Debug, PartialEq)]
pub enum EntityDescription {
    /// The type name alone.
    NoId(String),
    /// The identifier of the instance, then the type name.
    WithId(String, String),
}

/// The mathematical value of an [`EntityDescription`].
pub enum EntityView {
    NoId(Seq<char>),
    WithId(Seq<char>, Seq<char>),
}

impl EntityView {
    /// The type name of the entity.
    pub open spec fn typename(self) -> Seq<char> {
        match self {
            EntityView::NoId(typename) => typename,
            EntityView::WithId(_, typename) => typename,
        }
    }

    /// Whether the type name is not empty.
    pub open spec fn wf(self) -> bool {
        self.typename().len() > 0
    }
}

impl View for EntityDescription {
    type V = EntityView;

    open spec fn view(&self) -> EntityView {
        match self {
            EntityDescription::NoId(typename) => EntityView::NoId(typename@),
            EntityDescription::WithId(id, typename) => EntityView::WithId(id@, typename@),
        }
    }
}

/// A source entity and the entities reached from it, hop by hop.
#[derive(Debug, PartialEq)]
pub struct PathExpression(pub EntityDescription, pub Vec<EntityDescription>);

/// The mathematical value of a [`PathExpression`].
pub struct PathView {
    pub source: EntityView,
    pub hops: Seq<EntityView>,
}

impl PathView {
    /// Whether every entity of the path has a type name.
    pub open spec fn wf(self) -> bool {
        &&& self.source.wf()
        &&& forall|i: int| 0 <= i < self.hops.len() ==> (#[trigger] self.hops[i]).wf()
    }
}

impl View for PathExpression {
    type V = PathView;

    open spec fn view(&self) -> PathView {
        PathView { source: self.0@, hops: self.1@.map_values(|hop: EntityDescription| hop@) }
    }
}

/// The fields that a `select` statement asks for.
#[derive(Debug, PartialEq)]
pub enum Projection {
    /// Every field.
    All,
    /// The fields named, in the order of the statement.
    Fields(Vec<String>),
}

/// The mathematical value of a [`Projection`].
pub enum ProjectionView {
    All,
    Fields(Seq<Seq<char>>),
}

impl ProjectionView {
    /// Whether a list of fields, where there is one, is not empty.
    pub open spec fn wf(self) -> bool {
        self matches ProjectionView::Fields(names) ==> names.len() > 0
    }
}

impl View for Projection {
    type V = ProjectionView;

    open spec fn view(&self) -> ProjectionView {
        match self {
            Projection::All => ProjectionView::All,
            Projection::Fields(names) => ProjectionView::Fields(
                names@.map_values(|name: String| name@),
            ),
        }
    }
}

/// A condition on the fields of an entity.
#[derive(Debug, PartialEq)]
pub enum FilterExpression {
    /// A field, compared with a value.
    Plain(String, Operator, Value),
    And(Box<FilterExpression>, Box<FilterExpression>),
    Or(Box<FilterExpression>, Box<FilterExpression>),
}

/// The mathematical value of a [`FilterExpression`].
pub enum FilterView {
    Plain(Seq<char>, Operator, ValueView),
    And(Box<FilterView>, Box<FilterView>),
    Or(Box<FilterView>, Box<FilterView>),
}

impl FilterExpression {
    /// The mathematical value of the expression.
    pub open spec fn value(self) -> FilterView
        decreases self,
    {
        match self {
            FilterExpression::Plain(field, operator, value) => FilterView::Plain(
                field@,
                operator,
                value@,
            ),
            FilterExpression::And(left, right) => FilterView::And(
                Box::new((*left).value()),
                Box::new((*right).value()),
            ),
            FilterExpression::Or(left, right) => FilterView::Or(
                Box::new((*left).value()),
                Box::new((*right).value()),
            ),
        }
    }
}

impl View for FilterExpression {
    type V = FilterView;

    open spec fn view(&self) -> FilterView {
        self.value()
    }
}

/// A statement.
#[derive(Debug, PartialEq)]
pub enum AST {
    Select(Projection, PathExpression, Option<FilterExpression>),
    Create(EntityDescription, Mapping),
    Link(EntityDescription, EntityDescription),
}

/// The mathematical value of an [`AST`].
pub enum AstView {
    Select(ProjectionView, PathView, Option<FilterView>),
    Create(EntityView, Map<Seq<char>, ValueView>),
    Link(EntityView, EntityView),
}

impl AstView {
    /// Whether the parts of the statement are well formed: every entity has a
    /// type name, and a list of fields is not empty.
    pub open spec fn wf(self) -> bool {
        match self {
            AstView::Select(projection, path, _) => projection.wf() && path.wf(),
            AstView::Create(entity, values) => entity.wf() && values.dom().finite(),
            AstView::Link(from, to) => from.wf() && to.wf(),
        }
    }
}

impl View for AST {
    type V = AstView;

    open spec fn view(&self) -> AstView {
        match self {
            AST::Select(projection, path, filter) => AstView::Select(
                projection@,
                path@,
                match filter {
                    Some(expression) => Some(expression@),
                    None => None,
                },
            ),
            AST::Create(entity, values) => AstView::Create(entity@, values@),
            AST::Link(from, to) => AstView::Link(from@, to@),
        }
    }
}

/// Why a text is not a statement.
#[derive(Debug, PartialEq)]
pub enum ParseError {
    /// A token was needed where the text had ended.
    UnexpectedEOF,
    /// The token given fits no rule at its place.
    UnexpectedToken(Token),
    /// A list of fields without a field.
    InvalidProjection,
}

/// The mathematical value of a [`ParseError`].
pub enum ParseErrorView {
    UnexpectedEOF,
    UnexpectedToken(TokenView),
    InvalidProjection,
}

impl View for ParseError {
    type V = ParseErrorView;

    open spec fn view(&self) -> ParseErrorView {
        match self {
            ParseError::UnexpectedEOF => ParseErrorView::UnexpectedEOF,
            ParseError::UnexpectedToken(token) => ParseErrorView::UnexpectedToken(token@),
            ParseError::InvalidProjection => ParseErrorView::InvalidProjection,
        }
    }
}

} // verus!

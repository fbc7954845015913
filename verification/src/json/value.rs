//! The values that a JSON text stands for, and the errors of reading one.

use crate::string_map::StringMap;
use vstd::prelude::*;

verus! {

/// Why a text could not be read.
#[derive(Debug, PartialEq)]
pub enum ParserError {
    /// A character stands where another one was expected.
    UnexpectedToken(String),
    /// A token is not written as its kind requires.
    InvalidSyntax(String),
    /// A token that has to follow is not there.
    MissingToken(String),
    /// The text ended, or held nothing, where a value was needed.
    EmptyInput,
    /// The text uses a construct that this dialect leaves out.
    NotSupported(String),
}

/// What a `ParserError` says, with its message as a sequence of characters.
pub ghost enum ParserFault {
    UnexpectedToken(Seq<char>),
    InvalidSyntax(Seq<char>),
    MissingToken(Seq<char>),
    EmptyInput,
    NotSupported(Seq<char>),
}

impl ParserError {
    /// The error as a mathematical value.
    pub open spec fn view(&self) -> ParserFault {
        match self {
            ParserError::UnexpectedToken(m) => ParserFault::UnexpectedToken(m@),
            ParserError::InvalidSyntax(m) => ParserFault::InvalidSyntax(m@),
            ParserError::MissingToken(m) => ParserFault::MissingToken(m@),
            ParserError::EmptyInput => ParserFault::EmptyInput,
            ParserError::NotSupported(m) => ParserFault::NotSupported(m@),
        }
    }
}

/// A JSON value.
#[derive(Debug, PartialEq)]
pub enum JsonType {
    /// A set of named members; no name occurs twice.
    Object(StringMap<JsonType>),
    /// A list of values.
    Array(Vec<JsonType>),
    /// A text.
    String(String),
    /// A whole number.
    Number(i64),
    /// A number with a decimal point, kept as it was written.
    Decimal(String),
    /// `true` or `false`.
    Boolean(bool),
}

/// A JSON value as a mathematical value: what a `JsonType` stands for.
pub ghost enum JsonValue {
    Object(Map<Seq<char>, JsonValue>),
    Array(Seq<JsonValue>),
    String(Seq<char>),
    Number(int),
    Decimal(Seq<char>),
    Boolean(bool),
}

impl JsonType {
    /// The value as a mathematical value.
    pub open spec fn view(&self) -> JsonValue
        decreases self,
    {
        match self {
            JsonType::Object(members) => JsonValue::Object(object_view(*members)),
            JsonType::Array(items) => JsonValue::Array(array_view(*items)),
            JsonType::String(s) => JsonValue::String(s@),
            JsonType::Number(n) => JsonValue::Number(*n as int),
            JsonType::Decimal(s) => JsonValue::Decimal(s@),
            JsonType::Boolean(b) => JsonValue::Boolean(*b),
        }
    }
}

/// The members of an object as a map from each name to the member's value.
pub open spec fn object_view(members: StringMap<JsonType>) -> Map<Seq<char>, JsonValue>
    decreases members,
{
    Map::new(
        |k: Seq<char>| members@.contains_key(k),
        |k: Seq<char>|
            if members@.contains_key(k) {
                proof {
                    members.lemma_value_decreases(k);
                }
                members@[k].view()
            } else {
                arbitrary()
            },
    )
}

/// The items of an array as a sequence of their values.
pub open spec fn array_view(items: Vec<JsonType>) -> Seq<JsonValue>
    decreases items,
{
    Seq::new(
        items@.len(),
        |i: int|
            if 0 <= i < items@.len() {
                items@[i].view()
            } else {
                arbitrary()
            },
    )
}

} // verus!

//! What a runtime value is, as far as decisions go that do not look at numbers.
use vstd::prelude::*;

verus! {

/// The kind of a value; an object's class and a Boolean's truth are kept.
#[derive(Debug, Clone, PartialEq)]
pub enum Shape {
    Number,
    Boolean(bool),
    Str,
    Null,
    Object(String),
    Array,
    Closure,
}

impl Shape {
    /// The name of the value's type.
    pub open spec fn spec_name(&self) -> Seq<char> {
        match self {
            Shape::Number => "Number"@,
            Shape::Boolean(_) => "Boolean"@,
            Shape::Str => "String"@,
            Shape::Null => "Null"@,
            Shape::Object(c) => c@,
            Shape::Array => "Array"@,
            Shape::Closure => "Function"@,
        }
    }

    /// The name of the value's type: an object's is its class.
    pub fn name(&self) -> (r: String)
        ensures
            r@ == self.spec_name(),
    {
        match self {
            Shape::Number => "Number".to_owned(),
            Shape::Boolean(_) => "Boolean".to_owned(),
            Shape::Str => "String".to_owned(),
            Shape::Null => "Null".to_owned(),
            Shape::Object(c) => c.clone(),
            Shape::Array => "Array".to_owned(),
            Shape::Closure => "Function".to_owned(),
        }
    }

    /// Only false and null are false in a condition.
    pub fn is_truthy(&self) -> (r: bool)
        ensures
            r == match self {
                Shape::Boolean(b) => *b,
                Shape::Null => false,
                _ => true,
            },
    {
        match self {
            Shape::Boolean(b) => *b,
            Shape::Null => false,
            _ => true,
        }
    }

    pub fn is_null(&self) -> (r: bool)
        ensures
            r == (*self is Null),
    {
        match self {
            Shape::Null => true,
            _ => false,
        }
    }
}

} // verus!

//! Errors of evaluation.
use vstd::prelude::*;
use crate::text::{push_str, decimal, signed_decimal, i64_to_string, usize_to_string};

verus! {

#[derive(Debug, Clone, PartialEq)]
pub enum RuntimeError {
    UndefinedVariable { name: String },
    UndefinedFunction { name: String },
    UndefinedMethod { ty_name: String, method: String },
    UndefinedField { ty_name: String, field: String },
    UndefinedClass { name: String },
    TypeMismatch { expected: String, got: String },
    DivisionByZero,
    IndexOutOfBounds { index: i64, len: usize },
    InvalidAssignTarget,
    StackOverflow,
    Custom(String),
}

impl RuntimeError {
    /// What the error says, as its `Display` writes it.
    pub open spec fn spec_message(&self) -> Seq<char> {
        match self {
            RuntimeError::UndefinedVariable { name } => "Undefined variable '"@ + name@ + "'"@,
            RuntimeError::UndefinedFunction { name } => "Undefined function '"@ + name@ + "'"@,
            RuntimeError::UndefinedMethod { ty_name, method } => "'"@ + ty_name@ + "' has no method '"@ + method@
                + "'"@,
            RuntimeError::UndefinedField { ty_name, field } => "'"@ + ty_name@ + "' has no field '"@ + field@
                + "'"@,
            RuntimeError::UndefinedClass { name } => "Undefined class '"@ + name@ + "'"@,
            RuntimeError::TypeMismatch { expected, got } => "Type mismatch: expected "@ + expected@ + ", got "@
                + got@,
            RuntimeError::DivisionByZero => "Division by zero"@,
            RuntimeError::IndexOutOfBounds { index, len } => "Index "@ + signed_decimal(*index as int)
                + " out of bounds (len="@ + decimal(*len as nat) + ")"@,
            RuntimeError::InvalidAssignTarget => "Invalid assignment target"@,
            RuntimeError::StackOverflow => "Stack overflow"@,
            RuntimeError::Custom(msg) => msg@,
        }
    }

    /// The message of the error.
    pub fn message(&self) -> (s: String)
        ensures
            s@ == self.spec_message(),
    {
        let mut s = String::new();
        match self {
            RuntimeError::UndefinedVariable { name } => {
                push_str(&mut s, "Undefined variable '");
                push_str(&mut s, name.as_str());
                push_str(&mut s, "'");
            },
            RuntimeError::UndefinedFunction { name } => {
                push_str(&mut s, "Undefined function '");
                push_str(&mut s, name.as_str());
                push_str(&mut s, "'");
            },
            RuntimeError::UndefinedMethod { ty_name, method } => {
                push_str(&mut s, "'");
                push_str(&mut s, ty_name.as_str());
                push_str(&mut s, "' has no method '");
                push_str(&mut s, method.as_str());
                push_str(&mut s, "'");
            },
            RuntimeError::UndefinedField { ty_name, field } => {
                push_str(&mut s, "'");
                push_str(&mut s, ty_name.as_str());
                push_str(&mut s, "' has no field '");
                push_str(&mut s, field.as_str());
                push_str(&mut s, "'");
            },
            RuntimeError::UndefinedClass { name } => {
                push_str(&mut s, "Undefined class '");
                push_str(&mut s, name.as_str());
                push_str(&mut s, "'");
            },
            RuntimeError::TypeMismatch { expected, got } => {
                push_str(&mut s, "Type mismatch: expected ");
                push_str(&mut s, expected.as_str());
                push_str(&mut s, ", got ");
                push_str(&mut s, got.as_str());
            },
            RuntimeError::DivisionByZero => {
                push_str(&mut s, "Division by zero");
            },
            RuntimeError::IndexOutOfBounds { index, len } => {
                push_str(&mut s, "Index ");
                let i = i64_to_string(*index);
                push_str(&mut s, i.as_str());
                push_str(&mut s, " out of bounds (len=");
                let l = usize_to_string(*len);
                push_str(&mut s, l.as_str());
                push_str(&mut s, ")");
            },
            RuntimeError::InvalidAssignTarget => {
                push_str(&mut s, "Invalid assignment target");
            },
            RuntimeError::StackOverflow => {
                push_str(&mut s, "Stack overflow");
            },
            RuntimeError::Custom(msg) => {
                push_str(&mut s, msg.as_str());
            },
        }
        s
    }
}

} // verus!

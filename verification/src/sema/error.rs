//! Errors of the semantic checker.
use vstd::prelude::*;
use crate::lexer::Span;
use crate::text::{push_str, usize_to_string, decimal};
use super::types::{Type, TypeV};

verus! {

/// What an error says, with names as character sequences and types by their models.
pub ghost enum ErrV {
    UndefinedVariable { name: Seq<char>, span: Span },
    UndefinedFunction { name: Seq<char>, span: Span },
    UndefinedType { name: Seq<char>, span: Span },
    UndefinedClass { name: Seq<char>, span: Span },
    UndefinedMethod { ty_name: Seq<char>, method: Seq<char>, span: Span },
    UndefinedField { ty_name: Seq<char>, field: Seq<char>, span: Span },
    TypeMismatch { expected: TypeV, got: TypeV, span: Span },
    ArityMismatch { name: Seq<char>, expected: usize, got: usize, span: Span },
    InvalidAssignTarget { span: Span },
    CircularInheritance { class: Seq<char>, span: Span },
    DuplicateDeclaration { name: Seq<char>, span: Span },
    ConditionNotBoolean { got: TypeV, span: Span },
    NonNumericOperand { op: Seq<char>, got: TypeV, span: Span },
    NonBooleanOperand { op: Seq<char>, got: TypeV, span: Span },
    NonStringConcatArg { got: TypeV, span: Span },
    NullAssignedToPrimitive { target_type: TypeV, span: Span },
}

#[derive(Debug, Clone, PartialEq)]
pub enum SemanticError {
    UndefinedVariable { name: String, span: Span },
    UndefinedFunction { name: String, span: Span },
    UndefinedType { name: String, span: Span },
    UndefinedClass { name: String, span: Span },
    UndefinedMethod { ty_name: String, method: String, span: Span },
    UndefinedField { ty_name: String, field: String, span: Span },
    TypeMismatch { expected: Type, got: Type, span: Span },
    ArityMismatch { name: String, expected: usize, got: usize, span: Span },
    InvalidAssignTarget { span: Span },
    CircularInheritance { class: String, span: Span },
    DuplicateDeclaration { name: String, span: Span },
    ConditionNotBoolean { got: Type, span: Span },
    NonNumericOperand { op: String, got: Type, span: Span },
    NonBooleanOperand { op: String, got: Type, span: Span },
    NonStringConcatArg { got: Type, span: Span },
    NullAssignedToPrimitive { target_type: Type, span: Span },
}

impl View for SemanticError {
    type V = ErrV;

    open spec fn view(&self) -> ErrV {
        match self {
            SemanticError::UndefinedVariable { name, span } => ErrV::UndefinedVariable { name: name@, span: *span },
            SemanticError::UndefinedFunction { name, span } => ErrV::UndefinedFunction { name: name@, span: *span },
            SemanticError::UndefinedType { name, span } => ErrV::UndefinedType { name: name@, span: *span },
            SemanticError::UndefinedClass { name, span } => ErrV::UndefinedClass { name: name@, span: *span },
            SemanticError::UndefinedMethod { ty_name, method, span } => ErrV::UndefinedMethod {
                ty_name: ty_name@,
                method: method@,
                span: *span,
            },
            SemanticError::UndefinedField { ty_name, field, span } => ErrV::UndefinedField {
                ty_name: ty_name@,
                field: field@,
                span: *span,
            },
            SemanticError::TypeMismatch { expected, got, span } => ErrV::TypeMismatch {
                expected: expected.model(),
                got: got.model(),
                span: *span,
            },
            SemanticError::ArityMismatch { name, expected, got, span } => ErrV::ArityMismatch {
                name: name@,
                expected: *expected,
                got: *got,
                span: *span,
            },
            SemanticError::InvalidAssignTarget { span } => ErrV::InvalidAssignTarget { span: *span },
            SemanticError::CircularInheritance { class, span } => ErrV::CircularInheritance {
                class: class@,
                span: *span,
            },
            SemanticError::DuplicateDeclaration { name, span } => ErrV::DuplicateDeclaration {
                name: name@,
                span: *span,
            },
            SemanticError::ConditionNotBoolean { got, span } => ErrV::ConditionNotBoolean {
                got: got.model(),
                span: *span,
            },
            SemanticError::NonNumericOperand { op, got, span } => ErrV::NonNumericOperand {
                op: op@,
                got: got.model(),
                span: *span,
            },
            SemanticError::NonBooleanOperand { op, got, span } => ErrV::NonBooleanOperand {
                op: op@,
                got: got.model(),
                span: *span,
            },
            SemanticError::NonStringConcatArg { got, span } => ErrV::NonStringConcatArg {
                got: got.model(),
                span: *span,
            },
            SemanticError::NullAssignedToPrimitive { target_type, span } => ErrV::NullAssignedToPrimitive {
                target_type: target_type.model(),
                span: *span,
            },
        }
    }
}

/// The views of a list of errors.
pub open spec fn err_views(v: Seq<SemanticError>) -> Seq<ErrV> {
    v.map_values(|e: SemanticError| e@)
}

impl SemanticError {
    pub open spec fn span_of(&self) -> Span {
        match self {
            SemanticError::UndefinedVariable { span, .. } => *span,
            SemanticError::UndefinedFunction { span, .. } => *span,
            SemanticError::UndefinedType { span, .. } => *span,
            SemanticError::UndefinedClass { span, .. } => *span,
            SemanticError::UndefinedMethod { span, .. } => *span,
            SemanticError::UndefinedField { span, .. } => *span,
            SemanticError::TypeMismatch { span, .. } => *span,
            SemanticError::ArityMismatch { span, .. } => *span,
            SemanticError::InvalidAssignTarget { span } => *span,
            SemanticError::CircularInheritance { span, .. } => *span,
            SemanticError::DuplicateDeclaration { span, .. } => *span,
            SemanticError::ConditionNotBoolean { span, .. } => *span,
            SemanticError::NonNumericOperand { span, .. } => *span,
            SemanticError::NonBooleanOperand { span, .. } => *span,
            SemanticError::NonStringConcatArg { span, .. } => *span,
            SemanticError::NullAssignedToPrimitive { span, .. } => *span,
        }
    }

    /// Line and column of the error.
    pub fn position(&self) -> (r: (u32, u32))
        ensures
            r == (self.span_of().line, self.span_of().col),
    {
        let span = match self {
            SemanticError::UndefinedVariable { span, .. } => span,
            SemanticError::UndefinedFunction { span, .. } => span,
            SemanticError::UndefinedType { span, .. } => span,
            SemanticError::UndefinedClass { span, .. } => span,
            SemanticError::UndefinedMethod { span, .. } => span,
            SemanticError::UndefinedField { span, .. } => span,
            SemanticError::TypeMismatch { span, .. } => span,
            SemanticError::ArityMismatch { span, .. } => span,
            SemanticError::InvalidAssignTarget { span } => span,
            SemanticError::CircularInheritance { span, .. } => span,
            SemanticError::DuplicateDeclaration { span, .. } => span,
            SemanticError::ConditionNotBoolean { span, .. } => span,
            SemanticError::NonNumericOperand { span, .. } => span,
            SemanticError::NonBooleanOperand { span, .. } => span,
            SemanticError::NonStringConcatArg { span, .. } => span,
            SemanticError::NullAssignedToPrimitive { span, .. } => span,
        };
        (span.line, span.col)
    }

    pub open spec fn spec_clean_message(&self) -> Seq<char> {
        match self {
            SemanticError::UndefinedVariable { name, .. } => "undefined variable '"@ + name@ + "'"@,
            SemanticError::UndefinedFunction { name, .. } => "undefined function '"@ + name@ + "'"@,
            SemanticError::UndefinedType { name, .. } => "undefined type '"@ + name@ + "'"@,
            SemanticError::UndefinedClass { name, .. } => "undefined class '"@ + name@ + "'"@,
            SemanticError::UndefinedMethod { ty_name, method, .. } => "type '"@ + ty_name@ + "' has no method '"@
                + method@ + "'"@,
            SemanticError::UndefinedField { ty_name, field, .. } => "type '"@ + ty_name@ + "' has no field '"@
                + field@ + "'"@,
            SemanticError::TypeMismatch { expected, got, .. } => "type mismatch \u{2014} expected "@
                + expected.spec_name() + ", got "@ + got.spec_name(),
            SemanticError::ArityMismatch { name, expected, got, .. } => "'"@ + name@ + "' expects "@ + decimal(
                *expected as nat,
            ) + " argument(s), got "@ + decimal(*got as nat),
            SemanticError::InvalidAssignTarget { .. } => "invalid assignment target"@,
            SemanticError::CircularInheritance { class, .. } => "circular inheritance detected in class '"@
                + class@ + "'"@,
            SemanticError::DuplicateDeclaration { name, .. } => "duplicate declaration of '"@ + name@ + "'"@,
            SemanticError::ConditionNotBoolean { got, .. } => "condition must be Boolean, got "@ + got.spec_name(),
            SemanticError::NonNumericOperand { op, got, .. } => "operator '"@ + op@ + "' requires Number, got "@
                + got.spec_name(),
            SemanticError::NonBooleanOperand { op, got, .. } => "operator '"@ + op@ + "' requires Boolean, got "@
                + got.spec_name(),
            SemanticError::NonStringConcatArg { got, .. } => "string concatenation requires String, got "@
                + got.spec_name(),
            SemanticError::NullAssignedToPrimitive { target_type, .. } => "cannot assign null to '"@
                + target_type.spec_name() + "'"@,
        }
    }

    /// The message without its position.
    pub fn clean_message(&self) -> (s: String)
        ensures
            s@ == self.spec_clean_message(),
    {
        let mut s = String::new();
        match self {
            SemanticError::UndefinedVariable { name, .. } => {
                push_str(&mut s, "undefined variable '");
                push_str(&mut s, name.as_str());
                push_str(&mut s, "'");
            },
            SemanticError::UndefinedFunction { name, .. } => {
                push_str(&mut s, "undefined function '");
                push_str(&mut s, name.as_str());
                push_str(&mut s, "'");
            },
            SemanticError::UndefinedType { name, .. } => {
                push_str(&mut s, "undefined type '");
                push_str(&mut s, name.as_str());
                push_str(&mut s, "'");
            },
            SemanticError::UndefinedClass { name, .. } => {
                push_str(&mut s, "undefined class '");
                push_str(&mut s, name.as_str());
                push_str(&mut s, "'");
            },
            SemanticError::UndefinedMethod { ty_name, method, .. } => {
                push_str(&mut s, "type '");
                push_str(&mut s, ty_name.as_str());
                push_str(&mut s, "' has no method '");
                push_str(&mut s, method.as_str());
                push_str(&mut s, "'");
            },
            SemanticError::UndefinedField { ty_name, field, .. } => {
                push_str(&mut s, "type '");
                push_str(&mut s, ty_name.as_str());
                push_str(&mut s, "' has no field '");
                push_str(&mut s, field.as_str());
                push_str(&mut s, "'");
            },
            SemanticError::TypeMismatch { expected, got, .. } => {
                push_str(&mut s, "type mismatch \u{2014} expected ");
                let e = expected.name();
                push_str(&mut s, e.as_str());
                push_str(&mut s, ", got ");
                let g = got.name();
                push_str(&mut s, g.as_str());
            },
            SemanticError::ArityMismatch { name, expected, got, .. } => {
                push_str(&mut s, "'");
                push_str(&mut s, name.as_str());
                push_str(&mut s, "' expects ");
                let e = usize_to_string(*expected);
                push_str(&mut s, e.as_str());
                push_str(&mut s, " argument(s), got ");
                let g = usize_to_string(*got);
                push_str(&mut s, g.as_str());
            },
            SemanticError::InvalidAssignTarget { .. } => {
                push_str(&mut s, "invalid assignment target");
            },
            SemanticError::CircularInheritance { class, .. } => {
                push_str(&mut s, "circular inheritance detected in class '");
                push_str(&mut s, class.as_str());
                push_str(&mut s, "'");
            },
            SemanticError::DuplicateDeclaration { name, .. } => {
                push_str(&mut s, "duplicate declaration of '");
                push_str(&mut s, name.as_str());
                push_str(&mut s, "'");
            },
            SemanticError::ConditionNotBoolean { got, .. } => {
                push_str(&mut s, "condition must be Boolean, got ");
                let g = got.name();
                push_str(&mut s, g.as_str());
            },
            SemanticError::NonNumericOperand { op, got, .. } => {
                push_str(&mut s, "operator '");
                push_str(&mut s, op.as_str());
                push_str(&mut s, "' requires Number, got ");
                let g = got.name();
                push_str(&mut s, g.as_str());
            },
            SemanticError::NonBooleanOperand { op, got, .. } => {
                push_str(&mut s, "operator '");
                push_str(&mut s, op.as_str());
                push_str(&mut s, "' requires Boolean, got ");
                let g = got.name();
                push_str(&mut s, g.as_str());
            },
            SemanticError::NonStringConcatArg { got, .. } => {
                push_str(&mut s, "string concatenation requires String, got ");
                let g = got.name();
                push_str(&mut s, g.as_str());
            },
            SemanticError::NullAssignedToPrimitive { target_type, .. } => {
                push_str(&mut s, "cannot assign null to '");
                let t = target_type.name();
                push_str(&mut s, t.as_str());
                push_str(&mut s, "'");
            },
        }
        s
    }
}

} // verus!

//! Syntax-level diagnostics: everything the lexer and parser can report.
//! Each variant carries the span it points at and, where useful, the text
//! that names the fix.

use vstd::prelude::*;
use crate::span::Span;

verus! {

#[derive(Debug, Clone, PartialEq)]
pub enum SyntaxError {
    UnexpectedChar { ch: char, span: Span },
    UnterminatedString { span: Span },
    UnterminatedComment { span: Span },
    SqueezedOperator { original: String, suggestion: String, span: Span },
    UnexpectedToken { expected: String, found: String, span: Span },
    AtInExpression { name: String, span: Span },
    DollarInExpression { name: String, span: Span },
    ReservedWord { keyword: String, span: Span },
    UnexpectedEof { context: String, span: Span },
    IncludeCycle { chain: String, span: Span },
}

impl SyntaxError {
    /// The span the diagnostic points at.
    pub fn span(&self) -> (s: Span)
        ensures
            s == error_span(*self),
    {
        match self {
            SyntaxError::UnexpectedChar { span, .. } => *span,
            SyntaxError::UnterminatedString { span } => *span,
            SyntaxError::UnterminatedComment { span } => *span,
            SyntaxError::SqueezedOperator { span, .. } => *span,
            SyntaxError::UnexpectedToken { span, .. } => *span,
            SyntaxError::AtInExpression { span, .. } => *span,
            SyntaxError::DollarInExpression { span, .. } => *span,
            SyntaxError::ReservedWord { span, .. } => *span,
            SyntaxError::UnexpectedEof { span, .. } => *span,
            SyntaxError::IncludeCycle { span, .. } => *span,
        }
    }
}

pub open spec fn error_span(e: SyntaxError) -> Span {
    match e {
        SyntaxError::UnexpectedChar { span, .. } => span,
        SyntaxError::UnterminatedString { span } => span,
        SyntaxError::UnterminatedComment { span } => span,
        SyntaxError::SqueezedOperator { span, .. } => span,
        SyntaxError::UnexpectedToken { span, .. } => span,
        SyntaxError::AtInExpression { span, .. } => span,
        SyntaxError::DollarInExpression { span, .. } => span,
        SyntaxError::ReservedWord { span, .. } => span,
        SyntaxError::UnexpectedEof { span, .. } => span,
        SyntaxError::IncludeCycle { span, .. } => span,
    }
}

} // verus!

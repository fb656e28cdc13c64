//! A readable, programmable configuration language: spans, sources, the
//! lexer, the parser, the syntax tree, typed values, the canonical
//! formatter, schema validation, and the float-free parts of evaluation.

pub mod span;
pub mod text;
pub mod number;
pub mod value;
pub mod source;
pub mod token;
pub mod diagnostic;
pub mod lexer;
pub mod ast;
pub mod parser;
pub mod grammar;
pub mod format;
pub mod entry;
pub mod schema;
pub mod evaluation;
pub mod scope;
pub mod outline;

pub use ast::Document;
pub use diagnostic::SyntaxError;
pub use format::{format_with, FormatOptions};
pub use source::Source;
pub use span::{Span, Spanned};
pub use value::{ColorValue, DurationUnit, DurationValue, Value};
pub use schema::{
    CustomType, DuplicateKeyPolicy, KeySchema, NoCustom, NodeSchema, NodeSchemaBuilder, Schema,
    SchemaBuilder, SchemaErrorKind, ValidationResult, ValueType,
};

use vstd::prelude::*;
use crate::grammar::{document_res_v, items_strs_ok, sp_document};
use crate::lexer::{lex_error, sp_tokens, tokenized, toks_v, KindV};
use crate::parser::{err_v, parse_error, ErrV};
use crate::token::Token;
use crate::text::byte_len;

verus! {

/// Lexes and parses a source's text into a document. Unless lexing fails,
/// the result is what the grammar gives for the tokens that the text lexes
/// into.
pub fn parse(source: &Source) -> (r: Result<Document, SyntaxError>)
    requires
        byte_len(source.spec_text()) <= u32::MAX,
    ensures
        r matches Err(e) ==> lex_error(e) || parse_error(e),
        r matches Err(e) ==> (lex_error(e) ==> sp_tokens(source.spec_text()) == Err::<
            Seq<(KindV, Span)>,
            ErrV,
        >(err_v(e))),
        !(r matches Err(e) && lex_error(e)) ==> exists|toks: Seq<Token>|
            {
                &&& tokenized(source.spec_text(), toks)
                &&& sp_tokens(source.spec_text()) == Ok::<Seq<(KindV, Span)>, ErrV>(toks_v(toks))
                &&& document_res_v(r) == sp_document(toks, source.spec_text())
            },
        r matches Ok(d) ==> items_strs_ok(d.items@),
{
    let text = source.text();
    let tokens = match lexer::tokenize(text) {
        Ok(t) => t,
        Err(e) => return Err(e),
    };
    proof {
        parser::lemma_tokenized_stream_ok(text@, tokens@);
    }
    parser::parse(text, tokens)
}

} // verus!

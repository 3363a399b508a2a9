//! The token stream the tokenizer hands the parser: classified tokens with
//! their source spans. The character-level tokenizer itself is an external
//! collaborator; guard lines arrive with their predicate, consequent and
//! default texts already tokenized.

#![allow(unused_imports)]
use vstd::prelude::*;

use crate::diagnostics::Span;
use crate::Token;

verus! {

/// One classified token of the source stream. `BooleanGuard` opens a
/// multi-case guarded procedure, `Assignment` an unconditional binding;
/// `GuardOption` carries one `predicate -> consequent` line and
/// `GuardDefault` the final default line, each payload tokenized on its
/// own so nested errors surface with their own spans. A bare identifier
/// arrives as `Function` (invocable) or `FunctionLiteral` (inert); the
/// parser decides against the registry whether it names a primitive or a
/// user procedure. `Error` marks an unrecognized span.
#[derive(Debug, PartialEq)]
pub enum LexerToken {
    BooleanGuard(String),
    GuardDefault(Vec<(LexerToken, Span)>),
    GuardOption(Vec<(LexerToken, Span)>, Vec<(LexerToken, Span)>),
    Assignment(String),
    Token(Token),
    Function(String),
    FunctionLiteral(String),
    Seperator,
    Newline,
    Error,
}

} // verus!

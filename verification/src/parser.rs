//! From source text to token trees in one call.
use vstd::prelude::*;
use crate::span::SourceSpan;
use crate::tast::{self, spec_tast, tast_from_tokens, trees_view, Token, TreeV};
use crate::tokenizer::{self, spec_tokenize};

/// Tokenizing alone, without building trees.
pub use crate::tokenizer::tokenize_file as tokenize_first;

verus! {

/// Why a file could not be turned into token trees.
#[derive(Debug)]
pub enum FullError {
    /// Tokenizing failed.
    Tokenizer(tokenizer::Error),
    /// Building the token trees failed.
    Tast(tast::Error),
}

/// What reading a text as token trees gives: the token trees, or the tokenizer's error, or
/// the tree builder's error.
pub enum FullResultV {
    Trees(Seq<(TreeV, SourceSpan)>),
    TokenizerFailed(crate::token::TokenErrorV),
    TastFailed(tast::Error),
}

pub open spec fn spec_full(text: Seq<char>) -> FullResultV {
    match spec_tokenize(text) {
        Err(e) => FullResultV::TokenizerFailed(e),
        Ok(ts) => match spec_tast(ts) {
            Ok(trees) => FullResultV::Trees(trees),
            Err(e) => FullResultV::TastFailed(e),
        },
    }
}

/// Tokenizes the text `content` of the file called `name` and gathers the tokens into token
/// trees.
pub fn tokenize_file<'a>(name: &str, content: &'a str) -> (r: Result<Vec<(Token<'a>, SourceSpan)>, FullError>)
    ensures
        match spec_full(content@) {
            FullResultV::Trees(trees) => r matches Ok(v) && trees_view(v@) == trees,
            FullResultV::TokenizerFailed(e) => r matches Err(FullError::Tokenizer(tokenizer::Error::Tokenizer { name: n, source_code, related })) && {
                &&& n@ == name@
                &&& source_code@ == content@
                &&& related@.len() == 1
                &&& related@[0]@ == e
            },
            FullResultV::TastFailed(e) => r matches Err(FullError::Tast(x)) && x == e,
        },
{
    let tokens = match tokenizer::tokenize_file(name, content) {
        Ok(t) => t,
        Err(e) => {
            return Err(FullError::Tokenizer(e));
        },
    };
    match tast_from_tokens(tokens) {
        Ok(v) => Ok(v),
        Err(e) => Err(FullError::Tast(e)),
    }
}

} // verus!

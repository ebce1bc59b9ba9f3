//! The front end of the dpscript language: tokenizer, token trees, the token cursor that
//! parsers walk, and semantic highlighting.
pub mod span;
pub mod chars;
pub mod text;
pub mod cursor;
pub mod keyword;
pub mod token;
pub mod tokenizer;
pub mod tast;
pub mod owned;
pub mod parser;
pub mod lexer;
pub mod token_cursor;
pub mod meta;
pub mod def_meta;
pub mod value;
pub mod semantic;
pub mod display;
pub mod report;

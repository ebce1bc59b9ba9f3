use dpscript::def_meta::DslMarker;
use dpscript::lexer::{Error, ParseCx};
use dpscript::span::SourceSpan;
use dpscript::tast::tast_from_tokens;
use dpscript::token_cursor::TokenCursor;
use dpscript::tokenizer::tokenize;
use dpscript::value::{parse_dsl_literal, parse_literal, LiteralValue};

fn literal_cursor(src: &str) -> TokenCursor<'_> {
    TokenCursor::new(tast_from_tokens(tokenize(src).unwrap()).unwrap())
}

#[test]
fn literals_of_every_kind() {
    let mut c = literal_cursor("7b 2.5d 1f 42 9L \"s\" true false");
    let mut cx = ParseCx::new();
    assert!(matches!(parse_literal(&mut c, &mut cx).unwrap().value, LiteralValue::Byte(7)));
    assert!(matches!(parse_literal(&mut c, &mut cx).unwrap().value, LiteralValue::Double("2.5")));
    assert!(matches!(parse_literal(&mut c, &mut cx).unwrap().value, LiteralValue::Float("1")));
    let int = parse_literal(&mut c, &mut cx).unwrap();
    assert!(matches!(int.value, LiteralValue::Int(42)));
    assert_eq!(int.span, SourceSpan { start: 11, end: 13 });
    assert!(matches!(parse_literal(&mut c, &mut cx).unwrap().value, LiteralValue::Long(9)));
    assert!(matches!(parse_literal(&mut c, &mut cx).unwrap().value, LiteralValue::String("s")));
    assert!(matches!(parse_literal(&mut c, &mut cx).unwrap().value, LiteralValue::Bool(true)));
    assert!(matches!(parse_literal(&mut c, &mut cx).unwrap().value, LiteralValue::Bool(false)));
    assert!(matches!(parse_literal(&mut c, &mut cx), Err(Error::Eof { .. })));
}

#[test]
fn other_tokens_are_skipped_and_consumed() {
    let mut c = literal_cursor("x 1");
    let mut cx = ParseCx::new();
    assert!(matches!(parse_literal(&mut c, &mut cx), Err(Error::Skip)));
    assert!(matches!(parse_literal(&mut c, &mut cx).unwrap().value, LiteralValue::Int(1)));
}

#[test]
fn dsl_literals() {
    let mut c = literal_cursor("@\"s\" #5");
    let mut cx = ParseCx::new();
    let at = parse_dsl_literal(&mut c, &mut cx).unwrap();
    assert_eq!(at.dsl_marker, DslMarker::At);
    assert!(matches!(at.value, LiteralValue::String("s")));
    assert_eq!(at.span, SourceSpan { start: 0, end: 4 });
    let hash = parse_dsl_literal(&mut c, &mut cx).unwrap();
    assert_eq!(hash.dsl_marker, DslMarker::Hash);
    assert!(matches!(hash.value, LiteralValue::Int(5)));
    let mut c = literal_cursor("x");
    assert!(matches!(parse_dsl_literal(&mut c, &mut cx), Err(Error::Skip)));
}

use dpscript::keyword::Keyword;
use dpscript::lexer::{Error, ParseCx};
use dpscript::meta::{parse_def_flags, DefFlags, DefFlagsBuilder};
use dpscript::span::SourceSpan;
use dpscript::tast::{tast_from_tokens, Token};
use dpscript::token_cursor::TokenCursor;
use dpscript::tokenizer::tokenize;

fn cursor_over(src: &str) -> TokenCursor<'_> {
    TokenCursor::new(tast_from_tokens(tokenize(src).unwrap()).unwrap())
}

#[test]
fn builder_keeps_the_order_of_flags() {
    let cx = ParseCx::new();
    let mut b = DefFlagsBuilder::new();
    let span = SourceSpan { start: 0, end: 3 };
    assert!(b.try_push(&cx, (Token::Keyword(Keyword::Pub), span), DefFlags::Public).is_ok());
    assert!(b.try_push(&cx, (Token::Keyword(Keyword::Operator), span), DefFlags::Operator).is_ok());
    assert_eq!(b.build(), vec![DefFlags::Public, DefFlags::Operator]);
}

#[test]
fn builder_refuses_a_flag_twice() {
    let cx = ParseCx::new();
    let mut b = DefFlagsBuilder::new();
    let span = SourceSpan { start: 4, end: 7 };
    assert!(b.try_push(&cx, (Token::Keyword(Keyword::Pub), span), DefFlags::Public).is_ok());
    match b.try_push(&cx, (Token::Keyword(Keyword::Pub), span), DefFlags::Public) {
        Err(Error::UnexpectedToken { span: s, .. }) => assert_eq!(s, span),
        other => panic!("unexpected result: {:?}", other),
    }
    assert_eq!(b.build(), vec![DefFlags::Public]);
}

#[test]
fn flags_before_a_definition() {
    let mut c = cursor_over("pub const fn f");
    let mut cx = ParseCx::new();
    let flags = parse_def_flags(&mut c, &mut cx).unwrap();
    assert_eq!(flags, vec![DefFlags::Public, DefFlags::Const]);
    // `fn` is left for the definition itself.
    assert!(matches!(c.next().unwrap().0, Token::Keyword(Keyword::Fn)));
}

#[test]
fn const_without_fn_is_no_flag() {
    let mut c = cursor_over("operator const x");
    let mut cx = ParseCx::new();
    let flags = parse_def_flags(&mut c, &mut cx).unwrap();
    assert_eq!(flags, vec![DefFlags::Operator]);
    assert!(matches!(c.next().unwrap().0, Token::Keyword(Keyword::Const)));
}

#[test]
fn no_flags() {
    let mut c = cursor_over("fn f");
    let mut cx = ParseCx::new();
    assert!(parse_def_flags(&mut c, &mut cx).unwrap().is_empty());
    let mut empty = cursor_over("");
    assert!(parse_def_flags(&mut empty, &mut cx).unwrap().is_empty());
}

#[test]
fn a_repeated_flag_fails_with_its_token() {
    let mut c = cursor_over("pub operator pub fn");
    let mut cx = ParseCx::new();
    match parse_def_flags(&mut c, &mut cx) {
        Err(Error::UnexpectedToken { span, .. }) => assert_eq!(span, SourceSpan { start: 13, end: 16 }),
        other => panic!("unexpected result: {:?}", other),
    }
}

#[test]
fn context_errors() {
    let cx = ParseCx::new();
    let span = SourceSpan { start: 1, end: 2 };
    assert!(matches!(cx.eof(span), Error::Eof { span: s } if s == span));
    assert!(matches!(cx.skip(), Error::Skip));
    let e = cx.unexpected((Token::Keyword(Keyword::Let), span));
    assert_eq!(e.to_string(), "unexpected token: let");
    assert_eq!(cx.eof(span).to_string(), "unexpected end of input");
    let dup = Error::DuplicateMeta { kind: "inline", span };
    assert_eq!(dup.to_string(), "duplicate meta definition for 'inline'");
    let missing = Error::MissingOp { span };
    assert_eq!(missing.to_string(), "missing operator for binary operation - this is a compiler bug!");
    assert_eq!(
        cx.skip().to_string(),
        "skip this branch in attempting to parse. if you see this, report it! this should never be shown!"
    );
}

use dpscript::keyword::Keyword;
use dpscript::lexer::Error;
use dpscript::span::SourceSpan;
use dpscript::tast::{tast_from_tokens, Punct, Token};
use dpscript::token::{BraceType, Literal};
use dpscript::token_cursor::TokenCursor;
use dpscript::tokenizer::tokenize;

fn cursor(src: &str) -> TokenCursor<'_> {
    TokenCursor::new(tast_from_tokens(tokenize(src).unwrap()).unwrap())
}

fn tree_is_ident(t: &Token, s: &str) -> bool {
    matches!(t, Token::Literal(Literal::Identifier(x)) if *x == s)
}

#[test]
fn next_walks_the_tokens_and_stops_at_the_end() {
    let mut c = cursor("a b");
    assert!(c.has_next());
    let (t, span) = c.next().unwrap();
    assert!(tree_is_ident(&t, "a"));
    assert_eq!(span, SourceSpan { start: 0, end: 1 });
    assert!(tree_is_ident(&c.next().unwrap().0, "b"));
    assert!(!c.has_next());
    assert!(c.next().is_none());
}

#[test]
fn peek_moves_the_look_ahead_only() {
    let mut c = cursor("a b c");
    assert!(tree_is_ident(c.peek().unwrap(), "a"));
    assert!(tree_is_ident(c.peek().unwrap(), "b"));
    assert!(tree_is_ident(c.peek().unwrap(), "c"));
    assert!(c.peek().is_none());
    // Nothing was consumed.
    assert!(tree_is_ident(&c.next().unwrap().0, "a"));
    // `next` resets the look-ahead.
    assert!(tree_is_ident(c.peek().unwrap(), "b"));
    c.clear_peek();
    assert!(tree_is_ident(c.peek().unwrap(), "b"));
}

#[test]
fn peek_full_gives_the_span() {
    let mut c = cursor("ab cd");
    let (t, s) = c.peek_full().unwrap();
    assert!(tree_is_ident(t, "ab"));
    assert_eq!(*s, SourceSpan { start: 0, end: 2 });
    let (t, s) = c.peek_full().unwrap();
    assert!(tree_is_ident(t, "cd"));
    assert_eq!(*s, SourceSpan { start: 3, end: 5 });
}

#[test]
fn peek_in_skips_ahead() {
    let mut c = cursor("a b c d");
    // The token `num` places past the look-ahead must exist; the one before it is returned.
    assert!(tree_is_ident(c.peek_in(2).unwrap(), "b"));
    assert!(tree_is_ident(c.peek().unwrap(), "c"));
    assert!(c.peek_in(5).is_none());
}

#[test]
fn back_steps_one_token() {
    let mut c = cursor("a b");
    c.next();
    c.back();
    assert!(tree_is_ident(&c.next().unwrap().0, "a"));
    c.back();
    c.back();
    assert!(tree_is_ident(&c.next().unwrap().0, "a"));
}

#[test]
fn next_if_and_next_if_eq() {
    let mut c = cursor("pub fn");
    assert!(c.next_if(|t| matches!(t, Token::Keyword(Keyword::Fn))).is_none());
    let got = c.next_if(|t| matches!(t, Token::Keyword(Keyword::Pub))).unwrap();
    assert!(matches!(got.0, Token::Keyword(Keyword::Pub)));
    assert!(c.next_if_eq(&Token::Keyword(Keyword::Pub)).is_none());
    assert!(c.next_if_eq(&Token::Keyword(Keyword::Fn)).is_some());
    assert!(!c.has_next());
}

#[test]
fn next_if_ident_matches_the_name() {
    let mut c = cursor("inline x");
    assert!(c.next_if_ident("builtin").is_none());
    assert!(c.next_if_ident("inline").is_some());
    assert!(c.next_if_ident("x").is_some());
}

#[test]
fn take_and_take_while() {
    let mut c = cursor("a b c ; d");
    let first = c.take(2);
    assert_eq!(first.len(), 2);
    assert!(tree_is_ident(&first[1].0, "b"));
    let run = c.take_while(|t| !matches!(t, Token::Punct(Punct::Semi)));
    assert_eq!(run.len(), 1);
    assert!(tree_is_ident(&run[0].0, "c"));
    assert!(matches!(c.take_next().unwrap().0, Token::Punct(Punct::Semi)));
    // Taking more than is left takes what is left.
    assert_eq!(c.take(10).len(), 1);
    assert_eq!(c.take(10).len(), 0);
}

#[test]
fn save_and_restore() {
    let mut c = cursor("a b c");
    c.next();
    c.save();
    c.next();
    c.next();
    assert!(!c.has_next());
    c.restore();
    assert!(tree_is_ident(&c.next().unwrap().0, "b"));
    c.save();
    c.next();
    c.pop_state();
    assert!(!c.has_next());
}

#[test]
fn expect_consumes_or_fails() {
    let mut c = cursor("fn x");
    assert!(c.expect(Token::Keyword(Keyword::Fn)).is_ok());
    match c.expect(Token::Keyword(Keyword::Let)) {
        Err(Error::UnexpectedToken { span, .. }) => assert_eq!(span, SourceSpan { start: 3, end: 4 }),
        other => panic!("unexpected result: {:?}", other),
    }
    c.clear_peek();
    assert!(c.expect(Token::Literal(Literal::Identifier("x"))).is_ok());
    match c.expect(Token::Keyword(Keyword::Let)) {
        Err(Error::Eof { span }) => assert_eq!(span, SourceSpan { start: 3, end: 4 }),
        other => panic!("unexpected result: {:?}", other),
    }
}

#[test]
fn expect_or_skip_turns_failures_into_skip() {
    let mut c = cursor("x");
    assert!(matches!(c.expect_or_skip(Token::Keyword(Keyword::Fn)), Err(Error::Skip)));
}

#[test]
fn expect_group_opens_a_cursor_on_the_items() {
    let mut c = cursor("(a, b) c");
    assert!(c.expect_group(BraceType::Brackets).is_err());
    c.clear_peek();
    let mut inner = c.expect_group(BraceType::Parens).unwrap();
    assert_eq!(inner.expect_ident().unwrap().0, "a");
    assert!(inner.expect(Token::Punct(Punct::Comma)).is_ok());
    assert_eq!(inner.expect_ident().unwrap().0, "b");
    assert!(inner.assert_empty().is_ok());
    assert!(c.assert_empty().is_err());
}

#[test]
fn expect_ident_and_expect_str() {
    let mut c = cursor("name \"text\" 1");
    let (id, span) = c.expect_ident().unwrap();
    assert_eq!(id, "name");
    assert_eq!(span, SourceSpan { start: 0, end: 4 });
    assert!(c.expect_ident().is_err());
    c.clear_peek();
    assert_eq!(c.expect_str().unwrap().0, "text");
    assert!(c.expect_str().is_err());
}

#[test]
fn spans_run_from_where_they_were_opened() {
    let mut c = cursor("a b c");
    c.next();
    c.begin_span();
    c.next();
    c.next();
    assert_eq!(c.end_span(), SourceSpan { start: 0, end: 5 });
    c.begin_span_prev();
    assert_eq!(c.end_span(), SourceSpan { start: 2, end: 5 });
    assert_eq!(c.cur_span(), SourceSpan { start: 4, end: 5 });
    assert_eq!(c.prev_span(), SourceSpan { start: 2, end: 3 });
}

#[test]
fn cur_span_of_an_empty_cursor() {
    let c = cursor("");
    assert_eq!(c.cur_span(), SourceSpan { start: 0, end: 0 });
}

#[test]
fn printing_a_cursor_joins_the_tokens() {
    let c = cursor("f(a, \"s\") 42");
    assert_eq!(c.to_string(), "f (a,\"s\") 42");
}

#[test]
fn take_next_fails_at_the_end() {
    let mut c = cursor("a");
    assert!(c.take_next().is_ok());
    assert!(matches!(c.take_next(), Err(Error::Eof { .. })));
}

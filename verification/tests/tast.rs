use dpscript::parser::{tokenize_file, tokenize_first, FullError};
use dpscript::span::SourceSpan;
use dpscript::tast::{tast_from_tokens, Error, Punct, Token};
use dpscript::token::{BraceType, Literal};
use dpscript::tokenizer::tokenize;

fn trees(src: &str) -> Result<Vec<(Token<'_>, SourceSpan)>, Error> {
    tast_from_tokens(tokenize(src).unwrap())
}

#[test]
fn flat_tokens_stay_flat() {
    let ts = trees("a ; b").unwrap();
    assert_eq!(ts.len(), 3);
    assert!(matches!(ts[0].0, Token::Literal(Literal::Identifier("a"))));
    assert!(matches!(ts[1].0, Token::Punct(Punct::Semi)));
    assert!(matches!(ts[2].0, Token::Literal(Literal::Identifier("b"))));
}

#[test]
fn a_group_gathers_its_items() {
    let ts = trees("f(a, b)").unwrap();
    assert_eq!(ts.len(), 2);
    assert!(matches!(ts[0].0, Token::Literal(Literal::Identifier("f"))));
    match &ts[1] {
        (Token::BraceGroup(BraceType::Parens, items), span) => {
            assert_eq!(items.len(), 3);
            assert!(matches!(items[0].0, Token::Literal(Literal::Identifier("a"))));
            assert!(matches!(items[1].0, Token::Punct(Punct::Comma)));
            assert!(matches!(items[2].0, Token::Literal(Literal::Identifier("b"))));
            // From the first item's start to the last item's end.
            assert_eq!(*span, SourceSpan { start: 2, end: 6 });
        }
        other => panic!("unexpected token: {:?}", other),
    }
}

#[test]
fn an_empty_group_takes_the_closing_delimiter_span() {
    let ts = trees("[]").unwrap();
    assert_eq!(ts.len(), 1);
    match &ts[0] {
        (Token::BraceGroup(BraceType::Brackets, items), span) => {
            assert!(items.is_empty());
            assert_eq!(*span, SourceSpan { start: 1, end: 2 });
        }
        other => panic!("unexpected token: {:?}", other),
    }
}

#[test]
fn groups_nest() {
    let ts = trees("{ x [ 1 ] }").unwrap();
    assert_eq!(ts.len(), 1);
    match &ts[0].0 {
        Token::BraceGroup(BraceType::Braces, items) => {
            assert_eq!(items.len(), 2);
            match &items[1].0 {
                Token::BraceGroup(BraceType::Brackets, inner) => {
                    assert_eq!(inner.len(), 1);
                    assert!(matches!(inner[0].0, Token::Literal(Literal::Int(1))));
                }
                other => panic!("unexpected token: {:?}", other),
            }
        }
        other => panic!("unexpected token: {:?}", other),
    }
}

#[test]
fn a_close_without_open_group_fails() {
    match trees("a )") {
        Err(Error::UnexpectedGroupClose { span }) => assert_eq!(span, SourceSpan { start: 2, end: 3 }),
        other => panic!("unexpected result: {:?}", other),
    }
}

#[test]
fn a_close_of_another_kind_fails() {
    match trees("(]") {
        Err(Error::MismatchedBraceType { expect, got, span }) => {
            assert_eq!(expect, BraceType::Parens);
            assert_eq!(got, BraceType::Brackets);
            assert_eq!(span, SourceSpan { start: 1, end: 2 });
        }
        other => panic!("unexpected result: {:?}", other),
    }
}

#[test]
fn an_unclosed_group_fails() {
    // The innermost group left open is reported at its opening delimiter.
    match trees("a ( b ( )") {
        Err(Error::UnclosedGroup { span }) => assert_eq!(span, SourceSpan { start: 2, end: 3 }),
        other => panic!("unexpected result: {:?}", other),
    }
    match trees("{ ( ) [") {
        Err(Error::UnclosedGroup { span }) => assert_eq!(span, SourceSpan { start: 6, end: 7 }),
        other => panic!("unexpected result: {:?}", other),
    }
}

#[test]
fn printing_trees_gives_the_tokens_back() {
    let src = "f(a,[b]){c;}";
    let ts = trees(src).unwrap();
    let text: String = ts.iter().map(|(t, _)| t.to_string()).collect();
    assert_eq!(text, src);
}

#[test]
fn full_pipeline_builds_trees() {
    let ts = tokenize_file("main.dps", "fn f() { return 1; }").unwrap();
    assert_eq!(ts.len(), 4);
    assert!(matches!(ts[3].0, Token::BraceGroup(BraceType::Braces, _)));
}

#[test]
fn full_pipeline_reports_tokenizer_errors() {
    match tokenize_file("main.dps", "fn $") {
        Err(FullError::Tokenizer(_)) => {}
        other => panic!("unexpected result: {:?}", other),
    }
}

#[test]
fn full_pipeline_reports_unclosed_groups() {
    assert!(matches!(tokenize_file("main.dps", "fn f() {"), Err(FullError::Tast(Error::UnclosedGroup { .. }))));
}

#[test]
fn full_pipeline_reports_tree_errors() {
    match tokenize_file("main.dps", "fn f(}") {
        Err(FullError::Tast(Error::MismatchedBraceType { expect, got, .. })) => {
            assert_eq!(expect, BraceType::Parens);
            assert_eq!(got, BraceType::Braces);
        }
        other => panic!("unexpected result: {:?}", other),
    }
}

#[test]
fn error_messages() {
    let e = Error::MismatchedBraceType { expect: BraceType::Parens, got: BraceType::Braces, span: SourceSpan { start: 0, end: 1 } };
    assert_eq!(e.to_string(), "mismatched brace type: expected '()', but got: '{}");
    let e = Error::UnexpectedGroupClose { span: SourceSpan { start: 0, end: 1 } };
    assert_eq!(e.to_string(), "there is no delimiter group to close");
    let e = Error::UnclosedGroup { span: SourceSpan { start: 0, end: 1 } };
    assert_eq!(e.to_string(), "a delimiter group was left unclosed");
    let full = FullError::Tast(e);
    assert_eq!(full.to_string(), "a delimiter group was left unclosed");
}

#[test]
fn tokenize_first_gives_flat_tokens() {
    let flat = tokenize_first("main.dps", "f(a)").unwrap();
    assert_eq!(flat.len(), 4);
}

use dpscript::display::{int_to_string, tokens_to_string};
use dpscript::keyword::Keyword;
use dpscript::owned::{OwnedLiteral, OwnedToken};
use dpscript::span::SourceSpan;
use dpscript::tast::{self, tast_from_tokens};
use dpscript::token::{BraceType, Literal, Token, TokenError};
use dpscript::tokenizer::{tokenize, Error};

#[test]
fn integers_in_decimal() {
    assert_eq!(int_to_string(0), "0");
    assert_eq!(int_to_string(7), "7");
    assert_eq!(int_to_string(-42), "-42");
    assert_eq!(int_to_string(1234567890), "1234567890");
    assert_eq!(int_to_string(i64::MAX), "9223372036854775807");
    assert_eq!(int_to_string(i64::MIN), "-9223372036854775808");
}

#[test]
fn literals() {
    assert_eq!(Literal::Identifier("abc").to_string(), "abc");
    assert_eq!(Literal::String("hi there").to_string(), "\"hi there\"");
    assert_eq!(Literal::Int(-5).to_string(), "-5");
    assert_eq!(Literal::Long(123456789012).to_string(), "123456789012");
    assert_eq!(Literal::Byte(-128).to_string(), "-128");
    assert_eq!(Literal::Float("3").to_string(), "3");
    assert_eq!(Literal::Double("4").to_string(), "4");
}

#[test]
fn flat_tokens() {
    assert_eq!(Token::Keyword(Keyword::Objective).to_string(), "objective");
    let toks = tokenize("import a::b; x += \"y\"").unwrap();
    assert_eq!(tokens_to_string(&toks), "import a :: b ; x += \"y\"");
    assert_eq!(tokens_to_string(&Vec::new()), "");
}

#[test]
fn token_trees() {
    let trees = tast_from_tokens(tokenize("f(a, [1]) { }").unwrap()).unwrap();
    let texts: Vec<String> = trees.iter().map(|(t, _)| t.to_string()).collect();
    assert_eq!(texts, vec!["f", "(a,[1])", "{}"]);
    assert_eq!(tast::Punct::Colon.as_str(), ":");
}

#[test]
fn owned_tokens() {
    let trees = tast_from_tokens(tokenize("(x, \"s\", 9)").unwrap()).unwrap();
    let owned = trees[0].0.to_owned_token();
    assert_eq!(owned.to_string(), "(x,\"s\",9)");
    let lit = OwnedLiteral::from_literal(Literal::String("q"));
    assert_eq!(lit.to_string(), "\"q\"");
    let group = OwnedToken::BraceGroup(
        BraceType::Braces,
        vec![(OwnedToken::Literal(OwnedLiteral::Int(1)), SourceSpan { start: 1, end: 2 })],
    );
    assert_eq!(group.to_string(), "{1}");
}

#[test]
fn tokenizer_error_messages() {
    let e = TokenError::Unexpected { ch: '$', span: SourceSpan { start: 0, end: 1 } };
    assert_eq!(e.to_string(), "unexpected character: '$'");
    assert_eq!(TokenError::DoubleDotFloat.to_string(), "float/double cannot have more than one decimal");
    assert_eq!(TokenError::ParseFloat.to_string(), "invalid float literal");
    match tokenize("\u{0663}") {
        Err(e @ TokenError::ParseInt { .. }) => assert_eq!(e.to_string(), "invalid digit found in string"),
        other => panic!("unexpected result: {:?}", other),
    }
    let file_error = Error::Tokenizer { name: "a".to_string(), source_code: "$".to_string(), related: vec![e] };
    assert_eq!(file_error.to_string(), "an error occured");
    let io_error = Error::Io(std::io::Error::new(std::io::ErrorKind::NotFound, "missing"));
    assert_eq!(io_error.to_string(), "IO error occured");
}

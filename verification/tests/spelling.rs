use dpscript::keyword::Keyword;
use dpscript::token::{Assignment, BraceType, Comparison, Literal, Operator, Punct, Token, TokenError};
use dpscript::tokenizer::tokenize;

fn fixed_tokens() -> Vec<Token<'static>> {
    let mut v = Vec::new();
    for k in [
        Keyword::Import, Keyword::Export, Keyword::Const, Keyword::Fn, Keyword::Objective,
        Keyword::Struct, Keyword::Enum, Keyword::Init, Keyword::Tick, Keyword::Pub,
        Keyword::Operator, Keyword::Ref, Keyword::Extends, Keyword::Typedef, Keyword::Let,
        Keyword::Return, Keyword::Break, Keyword::Continue, Keyword::As, Keyword::At,
        Keyword::If, Keyword::Else, Keyword::For, Keyword::In, Keyword::While, Keyword::Loop,
        Keyword::True, Keyword::False,
    ] {
        v.push(Token::Keyword(k));
    }
    for p in [Punct::Hash, Punct::Semi, Punct::Comma, Punct::Colon] {
        v.push(Token::Punct(p));
    }
    for b in [BraceType::Parens, BraceType::Brackets, BraceType::Braces] {
        v.push(Token::Punct(Punct::GroupStart(b)));
        v.push(Token::Punct(Punct::GroupEnd(b)));
    }
    for c in [
        Comparison::Equal, Comparison::Less, Comparison::LessEqual, Comparison::Greater,
        Comparison::GreaterEqual, Comparison::NotEqual,
    ] {
        v.push(Token::Comparison(c));
    }
    for a in [
        Assignment::Equal, Assignment::AddEqual, Assignment::SubEqual, Assignment::MulEqual,
        Assignment::DivEqual, Assignment::ModEqual,
    ] {
        v.push(Token::Assignment(a));
    }
    for o in [
        Operator::At, Operator::Plus, Operator::Minus, Operator::Star, Operator::Slash,
        Operator::Percent, Operator::Bang, Operator::Dot, Operator::Range, Operator::ModulePath,
        Operator::Returns,
    ] {
        v.push(Token::Operator(o));
    }
    v
}

#[test]
fn printed_fixed_tokens_lex_back() {
    let all = fixed_tokens();
    assert_eq!(all.len(), 61);
    for t in all {
        let text = t.to_string();
        let got = tokenize(&text).unwrap();
        assert_eq!(got.len(), 1, "{}", text);
        assert_eq!(format!("{:?}", got[0].0), format!("{:?}", t));
        assert_eq!((got[0].1.start, got[0].1.end), (0, text.chars().count()));
    }
}

#[test]
fn unicode_whitespace_separates_tokens() {
    let ts = tokenize("fn\u{3000}x\u{a0}\u{2009};").unwrap();
    assert_eq!(ts.len(), 3);
    assert!(matches!(ts[0].0, Token::Keyword(Keyword::Fn)));
    assert!(matches!(ts[1].0, Token::Literal(Literal::Identifier("x"))));
    assert!(matches!(ts[2].0, Token::Punct(Punct::Semi)));
}

#[test]
fn a_character_without_white_space_is_unexpected() {
    assert!(matches!(tokenize("\u{200b}"), Err(TokenError::Unexpected { ch: '\u{200b}', .. })));
}

#[test]
fn letters_beyond_ascii_start_identifiers() {
    let ts = tokenize("\u{e9}t\u{e9} = 1;").unwrap();
    assert!(matches!(ts[0].0, Token::Literal(Literal::Identifier("\u{e9}t\u{e9}"))));
}

#[test]
fn numerals_beyond_ascii_start_numbers_that_do_not_parse() {
    assert!(matches!(tokenize("\u{663}"), Err(TokenError::ParseInt { .. })));
}

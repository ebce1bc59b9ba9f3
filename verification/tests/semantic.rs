use dpscript::semantic::{kind_of, semantic_tokens, SemanticToken, TokenTypes};
use dpscript::span::SourceSpan;
use dpscript::token::{Literal, Token};
use dpscript::tokenizer::tokenize;

fn st(delta_line: u32, delta_start: u32, length: u32, token_type: TokenTypes) -> SemanticToken {
    SemanticToken { delta_line, delta_start, length, token_modifiers_bitset: 0, token_type: token_type.index() }
}

#[test]
fn all_lists_the_legend_in_order() {
    let all = TokenTypes::all();
    assert_eq!(all.len(), 23);
    assert_eq!(all[0], TokenTypes::NAMESPACE);
    assert_eq!(all[15], TokenTypes::KEYWORD);
    assert_eq!(all[22], TokenTypes::DECORATOR);
    for (i, t) in all.iter().enumerate() {
        assert_eq!(t.index() as usize, i);
    }
}

#[test]
fn token_kinds() {
    let toks = tokenize("let # == += + x \"s\" 1 2d").unwrap();
    let kinds: Vec<TokenTypes> = toks.iter().map(|(t, _)| kind_of(t)).collect();
    assert_eq!(
        kinds,
        vec![
            TokenTypes::KEYWORD,
            TokenTypes::DECORATOR,
            TokenTypes::OPERATOR,
            TokenTypes::OPERATOR,
            TokenTypes::OPERATOR,
            TokenTypes::NAMESPACE,
            TokenTypes::STRING,
            TokenTypes::NUMBER,
            TokenTypes::NUMBER,
        ]
    );
}

#[test]
fn positions_and_lengths() {
    let text = "ab\ncd\n\nef";
    assert_eq!(SourceSpan { start: 0, end: 2 }.position(text), (0, 0));
    assert_eq!(SourceSpan { start: 4, end: 5 }.position(text), (1, 1));
    assert_eq!(SourceSpan { start: 7, end: 9 }.position(text), (3, 0));
    assert_eq!(SourceSpan { start: 7, end: 9 }.length(), 2);
}

#[test]
fn encoding_is_relative() {
    let content = "fn main\n  let x";
    let toks = tokenize(content).unwrap();
    let enc = semantic_tokens(content, &toks).unwrap();
    assert_eq!(
        enc,
        vec![
            st(0, 0, 2, TokenTypes::KEYWORD),
            st(0, 3, 4, TokenTypes::NAMESPACE),
            st(1, 2, 3, TokenTypes::KEYWORD),
            st(0, 4, 1, TokenTypes::NAMESPACE),
        ]
    );
}

#[test]
fn the_line_kept_is_the_last_delta() {
    // After the first line change the kept line is the delta, not the absolute line.
    let content = "a\nb\nc\nd";
    let toks = tokenize(content).unwrap();
    let enc = semantic_tokens(content, &toks).unwrap();
    let deltas: Vec<u32> = enc.iter().map(|t| t.delta_line).collect();
    assert_eq!(deltas, vec![0, 1, 1, 2]);
}

#[test]
fn tokens_out_of_order_cannot_be_encoded() {
    let content = "a\nb";
    let toks = vec![
        (Token::Literal(Literal::Identifier("b")), SourceSpan { start: 2, end: 3 }),
        (Token::Literal(Literal::Identifier("a")), SourceSpan { start: 0, end: 1 }),
    ];
    assert!(semantic_tokens(content, &toks).is_none());
}

#[test]
fn no_tokens_no_semantic_tokens() {
    assert_eq!(semantic_tokens("", &Vec::new()), Some(Vec::new()));
}

#[test]
fn a_file_encodes_whenever_it_tokenizes() {
    let enc = dpscript::semantic::semantic_tokens_of_file("a.dps", "fn f\n  x").unwrap();
    assert_eq!(enc.len(), 3);
    assert_eq!(enc[2].delta_line, 1);
    assert!(dpscript::semantic::semantic_tokens_of_file("a.dps", "fn $").is_err());
}

use dpscript::keyword::Keyword;
use dpscript::span::SourceSpan;
use dpscript::token::{Assignment, BraceType, Comparison, Literal, Operator, Punct, Token, TokenError};
use dpscript::tokenizer::{tokenize, tokenize_file, Error};

fn kinds<'a>(src: &'a str) -> Vec<Token<'a>> {
    tokenize(src).unwrap().into_iter().map(|(t, _)| t).collect()
}

fn spans(src: &str) -> Vec<(usize, usize)> {
    tokenize(src).unwrap().into_iter().map(|(_, s)| (s.start, s.end)).collect()
}

fn is_keyword(t: &Token, k: Keyword) -> bool {
    matches!(t, Token::Keyword(x) if *x == k)
}

fn is_ident(t: &Token, s: &str) -> bool {
    matches!(t, Token::Literal(Literal::Identifier(x)) if *x == s)
}

#[test]
fn empty_input_gives_no_tokens() {
    assert!(kinds("").is_empty());
    assert!(kinds("   \n\t  ").is_empty());
}

#[test]
fn keywords_and_identifiers() {
    let ts = kinds("fn main let x return");
    assert_eq!(ts.len(), 5);
    assert!(is_keyword(&ts[0], Keyword::Fn));
    assert!(is_ident(&ts[1], "main"));
    assert!(is_keyword(&ts[2], Keyword::Let));
    assert!(is_ident(&ts[3], "x"));
    assert!(is_keyword(&ts[4], Keyword::Return));
}

#[test]
fn keyword_prefix_of_identifier_is_identifier() {
    let ts = kinds("letter fnord _pub");
    assert_eq!(ts.len(), 3);
    assert!(is_ident(&ts[0], "letter"));
    assert!(is_ident(&ts[1], "fnord"));
    assert!(is_ident(&ts[2], "_pub"));
}

#[test]
fn punctuation_and_groups() {
    let ts = kinds("#;,(){}[]:");
    let expect = [
        Punct::Hash,
        Punct::Semi,
        Punct::Comma,
        Punct::GroupStart(BraceType::Parens),
        Punct::GroupEnd(BraceType::Parens),
        Punct::GroupStart(BraceType::Braces),
        Punct::GroupEnd(BraceType::Braces),
        Punct::GroupStart(BraceType::Brackets),
        Punct::GroupEnd(BraceType::Brackets),
        Punct::Colon,
    ];
    assert_eq!(ts.len(), expect.len());
    for (t, p) in ts.iter().zip(expect.iter()) {
        assert!(matches!(t, Token::Punct(x) if x == p));
    }
}

#[test]
fn two_character_operators() {
    let ts = kinds(":: == != <= >= += -= *= /= %= -> ..");
    assert!(matches!(ts[0], Token::Operator(Operator::ModulePath)));
    assert!(matches!(ts[1], Token::Comparison(Comparison::Equal)));
    assert!(matches!(ts[2], Token::Comparison(Comparison::NotEqual)));
    assert!(matches!(ts[3], Token::Comparison(Comparison::LessEqual)));
    assert!(matches!(ts[4], Token::Comparison(Comparison::GreaterEqual)));
    assert!(matches!(ts[5], Token::Assignment(Assignment::AddEqual)));
    assert!(matches!(ts[6], Token::Assignment(Assignment::SubEqual)));
    assert!(matches!(ts[7], Token::Assignment(Assignment::MulEqual)));
    assert!(matches!(ts[8], Token::Assignment(Assignment::DivEqual)));
    assert!(matches!(ts[9], Token::Assignment(Assignment::ModEqual)));
    assert!(matches!(ts[10], Token::Operator(Operator::Returns)));
    assert!(matches!(ts[11], Token::Operator(Operator::Range)));
    assert_eq!(ts.len(), 12);
}

#[test]
fn one_character_operators() {
    let ts = kinds("= ! < > + - * % . / @");
    assert!(matches!(ts[0], Token::Assignment(Assignment::Equal)));
    assert!(matches!(ts[1], Token::Operator(Operator::Bang)));
    assert!(matches!(ts[2], Token::Comparison(Comparison::Less)));
    assert!(matches!(ts[3], Token::Comparison(Comparison::Greater)));
    assert!(matches!(ts[4], Token::Operator(Operator::Plus)));
    assert!(matches!(ts[5], Token::Operator(Operator::Minus)));
    assert!(matches!(ts[6], Token::Operator(Operator::Star)));
    assert!(matches!(ts[7], Token::Operator(Operator::Percent)));
    assert!(matches!(ts[8], Token::Operator(Operator::Dot)));
    assert!(matches!(ts[9], Token::Operator(Operator::Slash)));
    assert!(matches!(ts[10], Token::Operator(Operator::At)));
    assert_eq!(ts.len(), 11);
}

#[test]
fn a_number_takes_all_its_digits() {
    let ts = kinds("42;");
    assert_eq!(ts.len(), 2);
    assert!(matches!(ts[0], Token::Literal(Literal::Int(42))));
    assert!(matches!(ts[1], Token::Punct(Punct::Semi)));
    assert_eq!(spans("42;"), vec![(0, 2), (2, 3)]);
}

#[test]
fn decimal_numbers_need_a_float_suffix() {
    let ts = kinds("1.5d 2.25f 3.d");
    assert_eq!(ts.len(), 3);
    assert!(matches!(ts[0], Token::Literal(Literal::Double("1.5"))));
    assert!(matches!(ts[1], Token::Literal(Literal::Float("2.25"))));
    assert!(matches!(ts[2], Token::Literal(Literal::Double("3."))));
    // Without a suffix the text is read as an `int`, which a decimal point is not.
    assert!(matches!(tokenize("1.5"), Err(TokenError::ParseInt { .. })));
}

#[test]
fn two_decimal_points_are_an_error() {
    assert!(matches!(tokenize("1.2.3d"), Err(TokenError::DoubleDotFloat)));
}

#[test]
fn integers_out_of_range_fail() {
    assert!(matches!(tokenize("128b"), Err(TokenError::ParseInt { .. })));
    assert!(matches!(tokenize("2147483648"), Err(TokenError::ParseInt { .. })));
    let ts = kinds("127b 2147483648L 2147483647");
    assert!(matches!(ts[0], Token::Literal(Literal::Byte(127))));
    assert!(matches!(ts[1], Token::Literal(Literal::Long(2147483648))));
    assert!(matches!(ts[2], Token::Literal(Literal::Int(2147483647))));
}

#[test]
fn number_suffixes() {
    let ts = kinds("5d 6f 7b 8L");
    assert_eq!(ts.len(), 4);
    assert!(matches!(ts[0], Token::Literal(Literal::Double("5"))));
    assert!(matches!(ts[1], Token::Literal(Literal::Float("6"))));
    assert!(matches!(ts[2], Token::Literal(Literal::Byte(7))));
    assert!(matches!(ts[3], Token::Literal(Literal::Long(8))));
    assert_eq!(spans("5d 6f 7b 8L"), vec![(0, 2), (3, 5), (6, 8), (9, 11)]);
}

#[test]
fn non_ascii_digit_fails_to_parse_as_integer() {
    match tokenize("\u{0663}") {
        Err(TokenError::ParseInt { .. }) => {}
        other => panic!("unexpected result: {:?}", other),
    }
}

#[test]
fn non_ascii_digit_fails_to_parse_as_float() {
    match tokenize("\u{0663}f") {
        Err(TokenError::ParseFloat) => {}
        other => panic!("unexpected result: {:?}", other),
    }
    match tokenize("\u{0663}d") {
        Err(TokenError::ParseFloat) => {}
        other => panic!("unexpected result: {:?}", other),
    }
}

#[test]
fn strings_keep_their_body() {
    let ts = kinds("\"hello world\" x");
    assert_eq!(ts.len(), 2);
    assert!(matches!(ts[0], Token::Literal(Literal::String("hello world"))));
    assert!(is_ident(&ts[1], "x"));
    assert_eq!(spans("\"hello world\" x"), vec![(0, 13), (14, 15)]);
}

#[test]
fn escaped_quote_is_not_counted_in_the_body() {
    // The escaped quote does not end the body but is not counted in its length: the body
    // text falls one character short, the character after it is consumed in place of the
    // closing quote, and that quote then opens an empty string.
    let src = "\"a\\\"b\"";
    assert_eq!(src.chars().count(), 6);
    let ts = kinds(src);
    assert_eq!(ts.len(), 2);
    assert!(matches!(ts[0], Token::Literal(Literal::String("a\\\""))));
    assert!(matches!(ts[1], Token::Literal(Literal::String(""))));
    assert_eq!(spans(src), vec![(0, 5), (5, 6)]);
}

#[test]
fn unterminated_string_runs_to_the_end() {
    let ts = kinds("\"abc");
    assert_eq!(ts.len(), 1);
    assert!(matches!(ts[0], Token::Literal(Literal::String("abc"))));
    assert_eq!(spans("\"abc"), vec![(0, 4)]);
}

#[test]
fn line_comments_are_skipped() {
    let ts = kinds("a // comment here\nb");
    assert_eq!(ts.len(), 2);
    assert!(is_ident(&ts[0], "a"));
    assert!(is_ident(&ts[1], "b"));
}

#[test]
fn unexpected_character_is_an_error() {
    match tokenize("a $") {
        Err(TokenError::Unexpected { ch, span }) => {
            assert_eq!(ch, '$');
            assert_eq!(span, SourceSpan { start: 2, end: 3 });
        }
        other => panic!("unexpected result: {:?}", other),
    }
}

#[test]
fn tokens_are_placed_in_order() {
    let src = "pub fn add(a, b) -> int { return a + b; }";
    let toks = tokenize(src).unwrap();
    let chars: Vec<char> = src.chars().collect();
    let mut last = 0;
    for (t, s) in &toks {
        assert!(last <= s.start && s.start < s.end && s.end <= chars.len());
        last = s.end;
        let text: String = chars[s.start..s.end].iter().collect();
        assert_eq!(text, t.to_string());
    }
    assert_eq!(toks.len(), 17);
}

#[test]
fn tokenize_file_keeps_name_and_text_on_error() {
    match tokenize_file("main.dps", "fn $") {
        Err(Error::Tokenizer { name, source_code, related }) => {
            assert_eq!(name, "main.dps");
            assert_eq!(source_code, "fn $");
            assert_eq!(related.len(), 1);
            assert!(matches!(related[0], TokenError::Unexpected { ch: '$', .. }));
        }
        other => panic!("unexpected result: {:?}", other),
    }
}

#[test]
fn tokenize_file_succeeds_like_tokenize() {
    let toks = tokenize_file("main.dps", "let x = 1;").unwrap();
    assert_eq!(toks.len(), 5);
    assert!(matches!(toks[2].0, Token::Assignment(Assignment::Equal)));
    assert!(matches!(toks[3].0, Token::Literal(Literal::Int(1))));
}

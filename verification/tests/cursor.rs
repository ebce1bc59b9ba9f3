use dpscript::cursor::{PeekSized, SkipClass, StringCursor};
use dpscript::keyword::{Keyword, KEYWORD_COUNT};
use dpscript::span::SourceSpan;
use dpscript::tokenizer::parse_next;

#[test]
fn peek_next_and_back() {
    let mut c = StringCursor::new("abc");
    assert_eq!(c.peek(), Some('a'));
    assert_eq!(c.peek(), Some('b'));
    assert_eq!(c.next(), Some('a'));
    assert_eq!(c.peek(), Some('b'));
    c.clear_peeker();
    assert_eq!(c.next(), Some('b'));
    c.back();
    assert_eq!(c.next(), Some('b'));
    assert_eq!(c.next(), Some('c'));
    assert_eq!(c.next(), None);
    assert_eq!(c.peek(), None);
}

#[test]
fn next_if_eq_and_next_if_in() {
    let mut c = StringCursor::new("x=y");
    assert_eq!(c.next_if_eq('='), None);
    assert_eq!(c.next_if_eq('x'), Some('x'));
    assert_eq!(c.next_if_in(&['+', '=']), Some('='));
    assert_eq!(c.next_if_in(&['+', '=']), None);
    assert_eq!(c.next(), Some('y'));
}

#[test]
fn skip_while_and_take() {
    let mut c = StringCursor::new("   word rest\nnext");
    c.skip_while(SkipClass::Whitespace);
    assert_eq!(c.take(4), "word");
    c.skip_while(SkipClass::NotNewline);
    assert_eq!(c.next(), Some('\n'));
    assert_eq!(c.take(100), "next");
    assert_eq!(c.take(1), "");
}

#[test]
fn spans_cover_what_was_consumed() {
    let mut c = StringCursor::new("hello world");
    c.begin_span();
    c.take(5);
    assert_eq!(c.end_span(), SourceSpan { start: 0, end: 5 });
}

#[test]
fn peek_many_moves_the_look_ahead() {
    let mut c = StringCursor::new("abcd");
    assert_eq!(c.peek_many(2), Some(vec!['a', 'b']));
    assert_eq!(c.peek_many(2), Some(vec!['c', 'd']));
    assert_eq!(c.peek_many(1), None);
    assert_eq!(c.peek(), None);
}

#[test]
fn keywords_are_read_after_their_first_character() {
    let mut c = StringCursor::new("eturn x");
    assert_eq!(Keyword::try_parse('r', &mut c), Some(Keyword::Return));
    assert_eq!(c.next(), Some(' '));
    let mut c = StringCursor::new("eturned");
    assert_eq!(Keyword::try_parse('r', &mut c), None);
    assert_eq!(c.next(), Some('e'));
}

#[test]
fn keyword_spellings_and_order() {
    assert_eq!(KEYWORD_COUNT, 28);
    assert_eq!(Keyword::at(0), Keyword::Import);
    assert_eq!(Keyword::at(27), Keyword::False);
    assert_eq!(Keyword::Typedef.as_str(), "typedef");
    assert_eq!(Keyword::Continue.as_str(), "continue");
    for i in 0..KEYWORD_COUNT {
        let k = Keyword::at(i);
        let text = k.as_str();
        let mut c = StringCursor::new(&text[1..]);
        assert_eq!(Keyword::try_parse(text.chars().next().unwrap(), &mut c), Some(k));
    }
}

#[test]
fn parse_next_reads_one_token_at_a_time() {
    let mut c = StringCursor::new("  a");
    let step = parse_next(&mut c).unwrap().unwrap().unwrap();
    assert_eq!(step.1, SourceSpan { start: 2, end: 3 });
    assert!(parse_next(&mut c).is_none());
}

#[test]
fn parse_next_skips_comments() {
    let mut c = StringCursor::new("// only a comment\n");
    assert!(matches!(parse_next(&mut c), Some(Ok(None))));
    assert!(parse_next(&mut c).is_none());
}

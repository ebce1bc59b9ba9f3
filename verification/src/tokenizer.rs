//! Splits a source text into tokens.
use vstd::prelude::*;
use crate::chars::{
    char_is_alphabetic, char_is_alphanumeric, char_is_numeric, char_is_whitespace,
    is_alphabetic_char, is_alphanumeric_char, is_ascii_digit, is_ascii_letter, is_numeric_char, is_whitespace_char,
    parse_i32, parse_i64, parse_i8, parsed_integer,
};
use crate::cursor::{lemma_skip_from_bounds, skip_from, skip_while_result, SkipClass, StringCursor};
use crate::keyword::{
    keyword_index, keyword_matches, keyword_order, keyword_text, law_keyword_reads_back, lemma_keyword_text_len,
    spec_try_parse, try_parse_from, Keyword,
};
use crate::span::SourceSpan;
use crate::text::str_chars;
use crate::token::{
    assignment_text, comparison_text, operator_text, punct_text,
    Assignment, BraceType, Comparison, Literal, LiteralV, Operator, Punct, Token, TokenError,
    TokenErrorV, TokenV,
};

verus! {

/// What one call of the tokenizer yields.
pub enum StepV {
    /// The text is used up.
    Eof,
    /// Whitespace or a comment was passed over.
    Skip,
    /// A token and its span.
    Token(TokenV, SourceSpan),
    /// The tokenizer failed.
    Error(TokenErrorV),
}

/// The outcome of one step, the position after it, and the look-ahead after it.
pub type StepResult = (StepV, int, int);

pub open spec fn has(t: Seq<char>, i: int, ch: char) -> bool {
    0 <= i < t.len() && t[i] == ch
}

pub open spec fn span_of(s: int, e: int) -> SourceSpan {
    SourceSpan { start: s as usize, end: e as usize }
}

/// A token running from `s` to `e`.
pub open spec fn tok(x: TokenV, s: int, e: int) -> StepResult {
    (StepV::Token(x, span_of(s, e)), e, 0)
}

/// A token of one character, or of two when the second is `ch`.
pub open spec fn one_extra(t: Seq<char>, s: int, ch: char, two: TokenV, one: TokenV) -> StepResult {
    if has(t, s + 1, ch) {
        tok(two, s, s + 2)
    } else {
        tok(one, s, s + 1)
    }
}

/// How many characters of a string literal's body are taken, reading from `i` on with `last`
/// the character read before and `n` characters counted so far.
///
/// A quote ends the body unless a backslash comes right before it; an escaped quote is not
/// counted.
pub open spec fn string_body_len(t: Seq<char>, i: int, last: char, n: int) -> int
    decreases t.len() - i,
{
    if i < 0 || i >= t.len() {
        n
    } else if t[i] == '"' && last != '\\' {
        n
    } else if t[i] == '"' {
        string_body_len(t, i + 1, '"', n)
    } else {
        string_body_len(t, i + 1, t[i], n + 1)
    }
}

/// Where a run of letters, digits and underscores that starts at `i` ends.
pub open spec fn ident_end(t: Seq<char>, i: int) -> int
    decreases t.len() - i,
{
    if 0 <= i < t.len() && (is_alphanumeric_char(t[i]) || t[i] == '_') {
        ident_end(t, i + 1)
    } else {
        i
    }
}

/// Whether std's float parser accepts `s`, for the texts that the tokenizer hands it (a
/// numeric character followed by numeric characters and decimal points): ASCII digits with
/// at most one decimal point. (Std's float syntax is digits, optionally with one point.)
pub open spec fn float_text_ok(s: Seq<char>) -> bool {
    &&& s.len() >= 1
    &&& is_ascii_digit(s[0])
    &&& forall|i: int| 0 <= i < s.len() ==> is_ascii_digit(#[trigger] s[i]) || s[i] == '.'
    &&& forall|i: int, j: int| 0 <= i < j < s.len() && s[i] == '.' ==> s[j] != '.'
}

pub open spec fn is_number_suffix(c: char) -> bool {
    c == 'd' || c == 'f' || c == 'b' || c == 'L'
}

/// The step for a number whose digits are `buf`, ending at `e`, with the suffix read after.
pub open spec fn number_value(t: Seq<char>, s: int, e: int, buf: Seq<char>) -> StepResult {
    if 0 <= e < t.len() && is_number_suffix(t[e]) {
        let sfx = t[e];
        if sfx == 'd' {
            if float_text_ok(buf) {
                tok(TokenV::Literal(LiteralV::Double(buf)), s, e + 1)
            } else {
                (StepV::Error(TokenErrorV::ParseFloat), e + 1, 0)
            }
        } else if sfx == 'f' {
            if float_text_ok(buf) {
                tok(TokenV::Literal(LiteralV::Float(buf)), s, e + 1)
            } else {
                (StepV::Error(TokenErrorV::ParseFloat), e + 1, 0)
            }
        } else if sfx == 'b' {
            match parsed_integer(buf, i8::MIN as int, i8::MAX as int) {
                Some(v) => tok(TokenV::Literal(LiteralV::Byte(v as i8)), s, e + 1),
                None => (StepV::Error(TokenErrorV::ParseInt), e + 1, 0),
            }
        } else {
            match parsed_integer(buf, i64::MIN as int, i64::MAX as int) {
                Some(v) => tok(TokenV::Literal(LiteralV::Long(v as i64)), s, e + 1),
                None => (StepV::Error(TokenErrorV::ParseInt), e + 1, 0),
            }
        }
    } else {
        match parsed_integer(buf, i32::MIN as int, i32::MAX as int) {
            Some(v) => tok(TokenV::Literal(LiteralV::Int(v as i32)), s, e),
            None => (StepV::Error(TokenErrorV::ParseInt), e, 0),
        }
    }
}

/// Scanning the rest of a number from `i`, with `dot` telling whether a decimal point was
/// taken already: where the scan stops, and whether it stopped at a second decimal point.
///
/// Numeric characters and decimal points are taken; anything else ends the number.
pub open spec fn number_scan(t: Seq<char>, i: int, dot: bool) -> (int, bool)
    decreases t.len() - i,
{
    if i < 0 || i >= t.len() || !(is_numeric_char(t[i]) || t[i] == '.') {
        (i, false)
    } else if t[i] == '.' {
        if dot {
            (i, true)
        } else {
            number_scan(t, i + 1, true)
        }
    } else {
        number_scan(t, i + 1, dot)
    }
}

pub proof fn lemma_number_scan(t: Seq<char>, i: int, dot: bool)
    requires
        0 <= i <= t.len(),
    ensures
        i <= number_scan(t, i, dot).0 <= t.len(),
        number_scan(t, i, dot).1 ==> number_scan(t, i, dot).0 < t.len(),
    decreases t.len() - i,
{
    if i < t.len() && (is_numeric_char(t[i]) || t[i] == '.') {
        if t[i] != '.' || !dot {
            lemma_number_scan(t, i + 1, if t[i] == '.' { true } else { dot });
        }
    }
}

/// The step for a number that starts with the numeric character at `s`: the number runs
/// over the numeric characters and at most one decimal point that follow; a second decimal
/// point is an error.
pub open spec fn number_step(t: Seq<char>, s: int) -> StepResult {
    let (e, double_dot) = number_scan(t, s + 1, false);
    if double_dot {
        (StepV::Error(TokenErrorV::DoubleDotFloat), s + 1, e - s)
    } else {
        number_value(t, s, e, t.subrange(s, e))
    }
}

/// After `/`: a line comment (up to and including the line feed), `/=`, or `/`.
pub open spec fn slash_step(t: Seq<char>, s: int) -> StepResult {
    if has(t, s + 1, '/') {
        let e = skip_from(t, s + 2, SkipClass::NotNewline);
        (StepV::Skip, if e < t.len() { e + 1 } else { e }, 0)
    } else if has(t, s + 1, '=') {
        tok(TokenV::Assignment(Assignment::DivEqual), s, s + 2)
    } else {
        tok(TokenV::Operator(Operator::Slash), s, s + 1)
    }
}

/// After `"`: the body (see `string_body_len`), then one more character is consumed when
/// there is one.
pub open spec fn string_step(t: Seq<char>, s: int) -> StepResult {
    let e0 = s + 1 + string_body_len(t, s + 1, '"', 0);
    let e = if e0 < t.len() { e0 + 1 } else { e0 };
    tok(TokenV::Literal(LiteralV::String(t.subrange(s + 1, e0))), s, e)
}

/// After a letter or `_`: a keyword if one matches (letters only), else an identifier.
pub open spec fn word_step(t: Seq<char>, s: int) -> StepResult {
    let c = t[s];
    if is_alphabetic_char(c) && spec_try_parse(t, s + 1, 0, c) is Some {
        let k = spec_try_parse(t, s + 1, 0, c)->0;
        tok(TokenV::Keyword(k), s, s + keyword_text(k).len())
    } else {
        let e = ident_end(t, s + 1);
        tok(TokenV::Literal(LiteralV::Identifier(t.subrange(s, e))), s, e)
    }
}

/// The step for a token whose first character, at `s`, is already read.
pub open spec fn scan(t: Seq<char>, s: int) -> StepResult {
    let c = t[s];
    if is_whitespace_char(c) {
        (StepV::Skip, s + 1, 0)
    } else if c == '#' {
        tok(TokenV::Punct(Punct::Hash), s, s + 1)
    } else if c == ';' {
        tok(TokenV::Punct(Punct::Semi), s, s + 1)
    } else if c == ',' {
        tok(TokenV::Punct(Punct::Comma), s, s + 1)
    } else if c == '@' {
        tok(TokenV::Operator(Operator::At), s, s + 1)
    } else if c == '(' {
        tok(TokenV::Punct(Punct::GroupStart(BraceType::Parens)), s, s + 1)
    } else if c == ')' {
        tok(TokenV::Punct(Punct::GroupEnd(BraceType::Parens)), s, s + 1)
    } else if c == '[' {
        tok(TokenV::Punct(Punct::GroupStart(BraceType::Brackets)), s, s + 1)
    } else if c == ']' {
        tok(TokenV::Punct(Punct::GroupEnd(BraceType::Brackets)), s, s + 1)
    } else if c == '{' {
        tok(TokenV::Punct(Punct::GroupStart(BraceType::Braces)), s, s + 1)
    } else if c == '}' {
        tok(TokenV::Punct(Punct::GroupEnd(BraceType::Braces)), s, s + 1)
    } else if c == ':' {
        one_extra(t, s, ':', TokenV::Operator(Operator::ModulePath), TokenV::Punct(Punct::Colon))
    } else if c == '=' {
        one_extra(t, s, '=', TokenV::Comparison(Comparison::Equal), TokenV::Assignment(Assignment::Equal))
    } else if c == '!' {
        one_extra(t, s, '=', TokenV::Comparison(Comparison::NotEqual), TokenV::Operator(Operator::Bang))
    } else if c == '<' {
        one_extra(t, s, '=', TokenV::Comparison(Comparison::LessEqual), TokenV::Comparison(Comparison::Less))
    } else if c == '>' {
        one_extra(t, s, '=', TokenV::Comparison(Comparison::GreaterEqual), TokenV::Comparison(Comparison::Greater))
    } else if c == '+' {
        one_extra(t, s, '=', TokenV::Assignment(Assignment::AddEqual), TokenV::Operator(Operator::Plus))
    } else if c == '-' {
        if has(t, s + 1, '=') {
            tok(TokenV::Assignment(Assignment::SubEqual), s, s + 2)
        } else if has(t, s + 1, '>') {
            tok(TokenV::Operator(Operator::Returns), s, s + 2)
        } else {
            tok(TokenV::Operator(Operator::Minus), s, s + 1)
        }
    } else if c == '*' {
        one_extra(t, s, '=', TokenV::Assignment(Assignment::MulEqual), TokenV::Operator(Operator::Star))
    } else if c == '%' {
        one_extra(t, s, '=', TokenV::Assignment(Assignment::ModEqual), TokenV::Operator(Operator::Percent))
    } else if c == '.' {
        one_extra(t, s, '.', TokenV::Operator(Operator::Range), TokenV::Operator(Operator::Dot))
    } else if c == '/' {
        slash_step(t, s)
    } else if c == '"' {
        string_step(t, s)
    } else if is_alphabetic_char(c) || c == '_' {
        word_step(t, s)
    } else if is_numeric_char(c) {
        number_step(t, s)
    } else {
        (StepV::Error(TokenErrorV::Unexpected { ch: c, span: span_of(s, s + 1) }), s + 1, 0)
    }
}

/// Where the next token starts: past the whitespace that the step skips first.
pub open spec fn lex_start(t: Seq<char>, p: int, q: int) -> int {
    skip_while_result(t, p, q, SkipClass::Whitespace).0
}

/// One step of the tokenizer from position `p` with look-ahead `q`.
pub open spec fn lex_step(t: Seq<char>, p: int, q: int) -> StepResult {
    let (p1, q1) = skip_while_result(t, p, q, SkipClass::Whitespace);
    if p1 >= t.len() {
        (StepV::Eof, p1, q1)
    } else {
        scan(t, p1)
    }
}

/// Whether a step closes the span it opened (a token, or an unexpected character).
pub open spec fn closes_span(out: StepV) -> bool {
    match out {
        StepV::Token(..) => true,
        StepV::Error(TokenErrorV::Unexpected { .. }) => true,
        _ => false,
    }
}

pub open spec fn outcome_of<'a>(r: Option<Result<Option<(Token<'a>, SourceSpan)>, TokenError>>) -> StepV {
    match r {
        None => StepV::Eof,
        Some(Ok(None)) => StepV::Skip,
        Some(Ok(Some((x, sp)))) => StepV::Token(x@, sp),
        Some(Err(e)) => StepV::Error(e@),
    }
}

pub open spec fn inner_outcome<'a>(r: Result<Option<(Token<'a>, SourceSpan)>, TokenError>) -> StepV {
    outcome_of(Some(r))
}


/// The cursor has just read the character at `s` of `t`, and the span of the token opened
/// there is the innermost one.
pub open spec fn reading_at<'a>(iter: StringCursor<'a>, t: Seq<char>, s: int) -> bool {
    &&& iter.wf()
    &&& iter.text() == t
    &&& 0 <= s < t.len()
    &&& iter.pos() == s + 1
    &&& iter.peeker() == 0
    &&& iter.spans().len() > 0
    &&& iter.spans().last() == s as usize
}

/// Closes the token's span and pairs it with the token.
fn finish<'a>(iter: &mut StringCursor<'a>, x: Token<'a>) -> (r: (Token<'a>, SourceSpan))
    requires
        old(iter).wf(),
        old(iter).spans().len() > 0,
    ensures
        final(iter).wf(),
        final(iter).text() == old(iter).text(),
        final(iter).source() == old(iter).source(),
        final(iter).pos() == old(iter).pos(),
        final(iter).peeker() == old(iter).peeker(),
        final(iter).spans() == old(iter).spans().drop_last(),
        r.0@ == x@,
        r.1 == (SourceSpan { start: old(iter).spans().last(), end: old(iter).pos() as usize }),
{
    let sp = iter.end_span();
    (x, sp)
}

/// A token of one character, or of two when the next character is `ch`.
fn one_extra_tok<'a>(iter: &mut StringCursor<'a>, ch: char, two: Token<'a>, one: Token<'a>) -> (r: (Token<'a>, SourceSpan))
    requires
        old(iter).wf(),
        old(iter).peeker() == 0,
        old(iter).spans().len() > 0,
    ensures
        final(iter).wf(),
        final(iter).text() == old(iter).text(),
        final(iter).source() == old(iter).source(),
        final(iter).peeker() == 0,
        final(iter).spans() == old(iter).spans().drop_last(),
        ({
            let (t, p) = (old(iter).text(), old(iter).pos());
            if has(t, p, ch) {
                &&& r.0@ == two@
                &&& final(iter).pos() == p + 1
            } else {
                &&& r.0@ == one@
                &&& final(iter).pos() == p
            }
        }),
        r.1 == (SourceSpan { start: old(iter).spans().last(), end: final(iter).pos() as usize }),
{
    proof { old(iter).lemma_wf(); }
    if iter.next_if_eq(ch).is_some() {
        finish(iter, two)
    } else {
        finish(iter, one)
    }
}


pub proof fn lemma_string_body_len(t: Seq<char>, i: int, last: char, n: int)
    requires
        0 <= i <= t.len(),
    ensures
        n <= string_body_len(t, i, last, n) <= n + (t.len() - i),
    decreases t.len() - i,
{
    if i < t.len() {
        if t[i] == '"' && last != '\\' {
        } else if t[i] == '"' {
            lemma_string_body_len(t, i + 1, '"', n);
        } else {
            lemma_string_body_len(t, i + 1, t[i], n + 1);
        }
    }
}

/// Reads a string literal whose opening quote is consumed.
fn lex_string<'a>(iter: &mut StringCursor<'a>) -> (r: (Token<'a>, SourceSpan))
    requires
        reading_at(*old(iter), old(iter).text(), old(iter).pos() - 1),
        old(iter).text()[old(iter).pos() - 1] == '"',
    ensures
        final(iter).wf(),
        final(iter).text() == old(iter).text(),
        final(iter).source() == old(iter).source(),
        final(iter).spans() == old(iter).spans().drop_last(),
        (inner_outcome(Ok(Some(r))), final(iter).pos(), final(iter).peeker())
            == string_step(old(iter).text(), old(iter).pos() - 1),
{
    let ghost t = iter.text();
    let ghost s = iter.pos() - 1;
    let mut last = '"';
    let mut len: usize = 0;
    let ghost mut j: int = 0;
    proof {
        iter.lemma_wf();
        lemma_string_body_len(t, s + 1, '"', 0);
    }
    loop
        invariant_except_break
            iter.peeker() == j,
            s + 1 + j <= t.len(),
            len <= j,
            string_body_len(t, s + 1, '"', 0) == string_body_len(t, s + 1 + j, last, len as int),
        invariant
            iter.wf(),
            iter.text() == t,
            iter.source() == old(iter).source(),
            iter.spans() == old(iter).spans(),
            iter.pos() == s + 1,
            0 <= s < t.len(),
            0 <= j,
            t.len() <= usize::MAX,
        ensures
            iter.wf(),
            iter.text() == t,
            iter.source() == old(iter).source(),
            iter.spans() == old(iter).spans(),
            iter.pos() == s + 1,
            s + 1 + len <= t.len(),
            len == string_body_len(t, s + 1, '"', 0),
        decreases t.len() - j,
    {
        match iter.peek() {
            Some(ch) => {
                if ch == '"' && last != '\\' {
                    break;
                } else if ch == '"' && last == '\\' {
                    last = '"';
                } else {
                    len = len + 1;
                    last = ch;
                }
                proof { j = j + 1; }
            },
            None => {
                break;
            },
        }
    }
    let content = iter.take(len);
    assert(content@ == t.subrange(s + 1, s + 1 + len));
    iter.next();
    proof { iter.lemma_wf(); }
    assert(iter.peeker() == 0);
    finish(iter, Token::Literal(Literal::String(content)))
}


pub proof fn lemma_ident_end(t: Seq<char>, i: int)
    requires
        0 <= i <= t.len(),
    ensures
        i <= ident_end(t, i) <= t.len(),
    decreases t.len() - i,
{
    if i < t.len() && (is_alphanumeric_char(t[i]) || t[i] == '_') {
        lemma_ident_end(t, i + 1);
    }
}

/// Reads a keyword or an identifier whose first character `c` is consumed.
fn lex_word<'a>(iter: &mut StringCursor<'a>, c: char) -> (r: (Token<'a>, SourceSpan))
    requires
        reading_at(*old(iter), old(iter).text(), old(iter).pos() - 1),
        old(iter).text()[old(iter).pos() - 1] == c,
    ensures
        final(iter).wf(),
        final(iter).text() == old(iter).text(),
        final(iter).source() == old(iter).source(),
        final(iter).spans() == old(iter).spans().drop_last(),
        (inner_outcome(Ok(Some(r))), final(iter).pos(), final(iter).peeker())
            == word_step(old(iter).text(), old(iter).pos() - 1),
{
    let ghost t = iter.text();
    let ghost s = iter.pos() - 1;
    proof { iter.lemma_wf(); }
    if char_is_alphabetic(c) {
        match Keyword::try_parse(c, iter) {
            Some(kw) => {
                return finish(iter, Token::Keyword(kw));
            },
            None => {},
        }
    }
    let mut len: usize = 0;
    proof { lemma_ident_end(t, s + 1); }
    loop
        invariant_except_break
            iter.peeker() == len,
            ident_end(t, s + 1) == ident_end(t, s + 1 + len),
        invariant
            iter.wf(),
            iter.text() == t,
            iter.source() == old(iter).source(),
            iter.spans() == old(iter).spans(),
            iter.pos() == s + 1,
            0 <= s < t.len(),
            t.len() <= usize::MAX,
            s + 1 + len <= t.len(),
        ensures
            iter.wf(),
            iter.text() == t,
            iter.source() == old(iter).source(),
            iter.spans() == old(iter).spans(),
            iter.pos() == s + 1,
            ident_end(t, s + 1) == s + 1 + len,
        decreases t.len() - len,
    {
        match iter.peek() {
            Some(ch) => {
                if char_is_alphanumeric(ch) || ch == '_' {
                    len = len + 1;
                } else {
                    break;
                }
            },
            None => {
                break;
            },
        }
    }
    iter.back();
    let text = iter.take(len + 1);
    assert(text@ == t.subrange(s, s + 1 + len));
    finish(iter, Token::Literal(Literal::Identifier(text)))
}


/// Whether the digits of a float or double literal are valid (see `float_text_ok`).
fn check_float_text(buf: &str) -> (r: bool)
    ensures
        r == float_text_ok(buf@),
{
    let chars = str_chars(buf);
    if chars.len() < 1 || !('0' <= chars[0] && chars[0] <= '9') {
        return false;
    }
    let mut dot = false;
    let mut i: usize = 0;
    while i < chars.len()
        invariant
            chars@ == buf@,
            chars@.len() >= 1,
            is_ascii_digit(chars@[0]),
            i <= chars@.len(),
            forall|x: int| 0 <= x < i ==> is_ascii_digit(#[trigger] chars@[x]) || chars@[x] == '.',
            forall|x: int, y: int| 0 <= x < y < i && chars@[x] == '.' ==> chars@[y] != '.',
            dot <==> exists|x: int| 0 <= x < i && chars@[x] == '.',
        decreases chars@.len() - i,
    {
        let ch = chars[i];
        if ch == '.' {
            if dot {
                assert(!float_text_ok(buf@)) by {
                    let x = choose|x: int| 0 <= x < i && chars@[x] == '.';
                    assert(chars@[x] == '.' && chars@[i as int] == '.');
                }
                return false;
            }
            dot = true;
        } else if !('0' <= ch && ch <= '9') {
            assert(!(is_ascii_digit(buf@[i as int]) || buf@[i as int] == '.'));
            return false;
        }
        i = i + 1;
    }
    true
}

/// Reads a number whose first digit `c` is consumed, with its type suffix.
fn lex_number<'a>(iter: &mut StringCursor<'a>, c: char) -> (r: Result<Option<(Token<'a>, SourceSpan)>, TokenError>)
    requires
        reading_at(*old(iter), old(iter).text(), old(iter).pos() - 1),
        old(iter).text()[old(iter).pos() - 1] == c,
    ensures
        final(iter).wf(),
        final(iter).text() == old(iter).text(),
        final(iter).source() == old(iter).source(),
        final(iter).spans() == if closes_span(inner_outcome(r)) {
            old(iter).spans().drop_last()
        } else {
            old(iter).spans()
        },
        (inner_outcome(r), final(iter).pos(), final(iter).peeker())
            == number_step(old(iter).text(), old(iter).pos() - 1),
{
    let ghost t = iter.text();
    let ghost s = iter.pos() - 1;
    proof { iter.lemma_wf(); }
    let mut dot = false;
    let mut len: usize = 0;
    proof { lemma_number_scan(t, s + 1, false); }
    loop
        invariant_except_break
            iter.peeker() == len,
            number_scan(t, s + 1, false) == number_scan(t, s + 1 + len, dot),
        invariant
            t == old(iter).text(),
            s == old(iter).pos() - 1,
            iter.wf(),
            iter.text() == t,
            iter.source() == old(iter).source(),
            iter.spans() == old(iter).spans(),
            iter.pos() == s + 1,
            0 <= s < t.len(),
            s + 1 + len <= t.len(),
            t.len() <= usize::MAX,
        ensures
            iter.wf(),
            iter.text() == t,
            iter.source() == old(iter).source(),
            iter.spans() == old(iter).spans(),
            iter.pos() == s + 1,
            number_scan(t, s + 1, false) == (s + 1 + len, false),
        decreases t.len() - len,
    {
        proof { iter.lemma_wf(); }
        match iter.peek() {
            None => {
                break;
            },
            Some(ch) => {
                if !char_is_numeric(ch) && ch != '.' {
                    break;
                }
                if ch == '.' {
                    if dot {
                        assert(number_step(t, s) == (StepV::Error(TokenErrorV::DoubleDotFloat), s + 1, len + 1));
                        return Err(TokenError::DoubleDotFloat);
                    } else {
                        dot = true;
                        len = len + 1;
                    }
                } else {
                    len = len + 1;
                }
            },
        }
    }
    iter.back();
    let buf = iter.take(len + 1);
    assert(buf@ == t.subrange(s, s + 1 + len));
    let suffixes: [char; 4] = ['d', 'f', 'b', 'L'];
    let sfx = iter.next_if_in(suffixes.as_slice());
    proof { iter.lemma_wf(); }
    match sfx {
        Some('d') => {
            if check_float_text(buf) {
                Ok(Some(finish(iter, Token::Literal(Literal::Double(buf)))))
            } else {
                Err(TokenError::ParseFloat)
            }
        },
        Some('f') => {
            if check_float_text(buf) {
                Ok(Some(finish(iter, Token::Literal(Literal::Float(buf)))))
            } else {
                Err(TokenError::ParseFloat)
            }
        },
        Some('b') => match parse_i8(buf) {
            Ok(v) => Ok(Some(finish(iter, Token::Literal(Literal::Byte(v))))),
            Err(e) => Err(TokenError::ParseInt { inner: e }),
        },
        Some('L') => match parse_i64(buf) {
            Ok(v) => Ok(Some(finish(iter, Token::Literal(Literal::Long(v))))),
            Err(e) => Err(TokenError::ParseInt { inner: e }),
        },
        Some(other) => {
            assert(false);
            let span = iter.end_span();
            Err(TokenError::Unexpected { ch: other, span })
        },
        None => match parse_i32(buf) {
            Ok(v) => Ok(Some(finish(iter, Token::Literal(Literal::Int(v))))),
            Err(e) => Err(TokenError::ParseInt { inner: e }),
        },
    }
}


/// Reads what starts with an already consumed `/`: a line comment, `/=` or `/`.
fn lex_slash<'a>(iter: &mut StringCursor<'a>) -> (r: Result<Option<(Token<'a>, SourceSpan)>, TokenError>)
    requires
        reading_at(*old(iter), old(iter).text(), old(iter).pos() - 1),
    ensures
        final(iter).wf(),
        final(iter).text() == old(iter).text(),
        final(iter).source() == old(iter).source(),
        final(iter).spans() == if closes_span(inner_outcome(r)) {
            old(iter).spans().drop_last()
        } else {
            old(iter).spans()
        },
        (inner_outcome(r), final(iter).pos(), final(iter).peeker())
            == slash_step(old(iter).text(), old(iter).pos() - 1),
{
    let ghost t = iter.text();
    let ghost s = iter.pos() - 1;
    proof { iter.lemma_wf(); }
    if iter.next_if_eq('/').is_some() {
        iter.skip_while(SkipClass::NotNewline);
        proof { lemma_skip_from_bounds(t, s + 2, SkipClass::NotNewline); }
        iter.next();
        proof { iter.lemma_wf(); }
        Ok(None)
    } else if iter.next_if_eq('=').is_some() {
        Ok(Some(finish(iter, Token::Assignment(Assignment::DivEqual))))
    } else {
        Ok(Some(finish(iter, Token::Operator(Operator::Slash))))
    }
}

/// The characters that start a token of punctuation or an operator, a comment or a string.
pub open spec fn is_symbol_start(c: char) -> bool {
    c == '#' || c == ';' || c == ',' || c == '@' || c == '(' || c == ')' || c == '[' || c == ']'
        || c == '{' || c == '}' || c == ':' || c == '=' || c == '!' || c == '<' || c == '>'
        || c == '+' || c == '-' || c == '*' || c == '%' || c == '.' || c == '/' || c == '"'
}

/// Reads the token whose first character `c` is consumed.
fn scan_token<'a>(iter: &mut StringCursor<'a>, c: char) -> (r: Result<Option<(Token<'a>, SourceSpan)>, TokenError>)
    requires
        reading_at(*old(iter), old(iter).text(), old(iter).pos() - 1),
        old(iter).text()[old(iter).pos() - 1] == c,
    ensures
        final(iter).wf(),
        final(iter).text() == old(iter).text(),
        final(iter).source() == old(iter).source(),
        final(iter).spans() == if closes_span(inner_outcome(r)) {
            old(iter).spans().drop_last()
        } else {
            old(iter).spans()
        },
        (inner_outcome(r), final(iter).pos(), final(iter).peeker())
            == scan(old(iter).text(), old(iter).pos() - 1),
{
    let ghost t = iter.text();
    let ghost s = iter.pos() - 1;
    proof { iter.lemma_wf(); }
    if char_is_whitespace(c) {
        return Ok(None);
    }
    match c {
        '#' => Ok(Some(finish(iter, Token::Punct(Punct::Hash)))),
        ';' => Ok(Some(finish(iter, Token::Punct(Punct::Semi)))),
        ',' => Ok(Some(finish(iter, Token::Punct(Punct::Comma)))),
        '@' => Ok(Some(finish(iter, Token::Operator(Operator::At)))),
        '(' => Ok(Some(finish(iter, Token::Punct(Punct::GroupStart(BraceType::Parens))))),
        ')' => Ok(Some(finish(iter, Token::Punct(Punct::GroupEnd(BraceType::Parens))))),
        '[' => Ok(Some(finish(iter, Token::Punct(Punct::GroupStart(BraceType::Brackets))))),
        ']' => Ok(Some(finish(iter, Token::Punct(Punct::GroupEnd(BraceType::Brackets))))),
        '{' => Ok(Some(finish(iter, Token::Punct(Punct::GroupStart(BraceType::Braces))))),
        '}' => Ok(Some(finish(iter, Token::Punct(Punct::GroupEnd(BraceType::Braces))))),
        ':' => Ok(Some(one_extra_tok(iter, ':', Token::Operator(Operator::ModulePath), Token::Punct(Punct::Colon)))),
        '=' => Ok(Some(one_extra_tok(iter, '=', Token::Comparison(Comparison::Equal), Token::Assignment(Assignment::Equal)))),
        '!' => Ok(Some(one_extra_tok(iter, '=', Token::Comparison(Comparison::NotEqual), Token::Operator(Operator::Bang)))),
        '<' => Ok(Some(one_extra_tok(iter, '=', Token::Comparison(Comparison::LessEqual), Token::Comparison(Comparison::Less)))),
        '>' => Ok(Some(one_extra_tok(iter, '=', Token::Comparison(Comparison::GreaterEqual), Token::Comparison(Comparison::Greater)))),
        '+' => Ok(Some(one_extra_tok(iter, '=', Token::Assignment(Assignment::AddEqual), Token::Operator(Operator::Plus)))),
        '-' => {
            if iter.next_if_eq('=').is_some() {
                Ok(Some(finish(iter, Token::Assignment(Assignment::SubEqual))))
            } else {
                iter.clear_peeker();
                if iter.next_if_eq('>').is_some() {
                    Ok(Some(finish(iter, Token::Operator(Operator::Returns))))
                } else {
                    Ok(Some(finish(iter, Token::Operator(Operator::Minus))))
                }
            }
        },
        '*' => Ok(Some(one_extra_tok(iter, '=', Token::Assignment(Assignment::MulEqual), Token::Operator(Operator::Star)))),
        '%' => Ok(Some(one_extra_tok(iter, '=', Token::Assignment(Assignment::ModEqual), Token::Operator(Operator::Percent)))),
        '.' => Ok(Some(one_extra_tok(iter, '.', Token::Operator(Operator::Range), Token::Operator(Operator::Dot)))),
        '/' => lex_slash(iter),
        '"' => Ok(Some(lex_string(iter))),
        _ => {
            if char_is_alphabetic(c) || c == '_' {
                Ok(Some(lex_word(iter, c)))
            } else if char_is_numeric(c) {
                lex_number(iter, c)
            } else {
                let span = iter.end_span();
                Err(TokenError::Unexpected { ch: c, span })
            }
        },
    }
}

/// Reads the next token.
///
/// Whitespace is skipped first. Returns `None` at the end of the text, `Some(Ok(None))` for a
/// comment (or whitespace that the skip left), a token with its span, or an error.
pub fn parse_next<'a>(iter: &mut StringCursor<'a>) -> (r: Option<Result<Option<(Token<'a>, SourceSpan)>, TokenError>>)
    requires
        old(iter).wf(),
    ensures
        final(iter).wf(),
        final(iter).text() == old(iter).text(),
        final(iter).source() == old(iter).source(),
        (outcome_of(r), final(iter).pos(), final(iter).peeker())
            == lex_step(old(iter).text(), old(iter).pos(), old(iter).peeker()),
        final(iter).spans() == if closes_span(outcome_of(r)) {
            old(iter).spans()
        } else {
            old(iter).spans().push(lex_start(old(iter).text(), old(iter).pos(), old(iter).peeker()) as usize)
        },
{
    proof { iter.lemma_wf(); }
    iter.skip_while(SkipClass::Whitespace);
    proof { iter.lemma_wf(); }
    iter.begin_span();
    let c = match iter.next() {
        Some(c) => c,
        None => {
            return None;
        },
    };
    proof { iter.lemma_wf(); }
    Some(scan_token(iter, c))
}


/// Keyword reading stops within the text and follows the keyword's spelling.
pub proof fn lemma_try_parse_from(t: Seq<char>, p: int, cur: char, i: int)
    requires
        0 <= p,
    ensures
        try_parse_from(t, p, 0, cur, i) matches Some(k) ==> keyword_matches(t, p, 0, cur, k),
    decreases 28 - i,
{
    if 0 <= i < 28 {
        lemma_try_parse_from(t, p, cur, i + 1);
    }
}

/// A step that yields a token or skips something consumes at least one character, stays
/// within the text and leaves the look-ahead at the cursor.
pub proof fn lemma_step_progress(t: Seq<char>, p: int, q: int)
    requires
        0 <= p,
        0 <= q,
        p + q <= t.len(),
    ensures
        ({
            let (out, np, nq) = lex_step(t, p, q);
            &&& p <= np <= t.len()
            &&& 0 <= nq
            &&& np + nq <= t.len()
            &&& (out is Skip || out is Token) ==> p < np && nq == 0
            &&& out is Eof ==> np == t.len() && nq == 0
        }),
{
    let (p1, q1) = skip_while_result(t, p, q, SkipClass::Whitespace);
    if p + q < t.len() && is_whitespace_char(t[p + q]) {
        lemma_skip_from_bounds(t, p + 1, SkipClass::Whitespace);
    }
    if p1 < t.len() {
        let s = p1;
        let c = t[s];
        lemma_number_scan(t, s + 1, false);
        if c == '/' && has(t, s + 1, '/') {
            lemma_skip_from_bounds(t, s + 2, SkipClass::NotNewline);
        } else if c == '"' {
            lemma_string_body_len(t, s + 1, '"', 0);
        } else if is_alphabetic_char(c) || c == '_' {
            lemma_ident_end(t, s + 1);
            lemma_try_parse_from(t, s + 1, c, 0);
            if is_alphabetic_char(c) && spec_try_parse(t, s + 1, 0, c) is Some {
                lemma_keyword_text_len(spec_try_parse(t, s + 1, 0, c)->0);
            }
        }
    }
}

/// Prepends tokens to the result of tokenizing the rest of a text.
pub open spec fn prepend(
    xs: Seq<(TokenV, SourceSpan)>,
    r: Result<Seq<(TokenV, SourceSpan)>, TokenErrorV>,
) -> Result<Seq<(TokenV, SourceSpan)>, TokenErrorV> {
    match r {
        Ok(rest) => Ok(xs + rest),
        Err(e) => Err(e),
    }
}

/// The tokens of `t` from position `p` with look-ahead `q` on: the steps' tokens in order,
/// until the text is used up or a step fails.
pub open spec fn tokenize_from(t: Seq<char>, p: int, q: int) -> Result<Seq<(TokenV, SourceSpan)>, TokenErrorV>
    decreases t.len() - p,
    when 0 <= p && 0 <= q && p + q <= t.len()
{
    let (out, np, nq) = lex_step(t, p, q);
    proof { lemma_step_progress(t, p, q); }
    match out {
        StepV::Eof => Ok(Seq::empty()),
        StepV::Skip => tokenize_from(t, np, nq),
        StepV::Token(x, sp) => prepend(seq![(x, sp)], tokenize_from(t, np, nq)),
        StepV::Error(e) => Err(e),
    }
}

/// The tokens of a whole text.
pub open spec fn spec_tokenize(t: Seq<char>) -> Result<Seq<(TokenV, SourceSpan)>, TokenErrorV> {
    tokenize_from(t, 0, 0)
}

/// The mathematical value of a list of spanned tokens.
pub open spec fn tokens_view<'a>(v: Seq<(Token<'a>, SourceSpan)>) -> Seq<(TokenV, SourceSpan)> {
    v.map_values(|x: (Token<'a>, SourceSpan)| (x.0@, x.1))
}

pub open spec fn tokenize_result_view<'a>(r: Result<Vec<(Token<'a>, SourceSpan)>, TokenError>) -> Result<Seq<(TokenV, SourceSpan)>, TokenErrorV> {
    match r {
        Ok(v) => Ok(tokens_view(v@)),
        Err(e) => Err(e@),
    }
}

/// Splits `input` into tokens, stopping at the first error.
pub fn tokenize<'a>(input: &'a str) -> (r: Result<Vec<(Token<'a>, SourceSpan)>, TokenError>)
    ensures
        tokenize_result_view(r) == spec_tokenize(input@),
        r matches Ok(v) ==> forall|i: int| 0 <= i < v@.len()
            ==> word_bounds_hold(input@, (#[trigger] v@[i]).0@, v@[i].1),
{
    let mut iter = StringCursor::new(input);
    let mut tokens: Vec<(Token<'a>, SourceSpan)> = Vec::new();
    let ghost t = input@;
    loop
        invariant
            iter.wf(),
            iter.text() == t,
            t == input@,
            spec_tokenize(t) == prepend(tokens_view(tokens@), tokenize_from(t, iter.pos(), iter.peeker())),
        decreases t.len() - iter.pos(),
    {
        proof {
            iter.lemma_wf();
            lemma_step_progress(t, iter.pos(), iter.peeker());
        }
        let ghost before = tokens_view(tokens@);
        let ghost (p0, q0) = (iter.pos(), iter.peeker());
        let ghost rest0 = tokenize_from(t, p0, q0);
        let step = parse_next(&mut iter);
        proof {
            iter.lemma_wf();
            assert(rest0 == match lex_step(t, p0, q0).0 {
                StepV::Eof => Ok(Seq::empty()),
                StepV::Skip => tokenize_from(t, iter.pos(), iter.peeker()),
                StepV::Token(x, sp) => prepend(seq![(x, sp)], tokenize_from(t, iter.pos(), iter.peeker())),
                StepV::Error(e) => Err(e),
            });
        }
        match step {
            None => {
                assert(before + Seq::<(TokenV, SourceSpan)>::empty() == before);
                proof {
                    law_words_are_read_whole(t);
                    assert(spec_tokenize(t) == Ok::<_, TokenErrorV>(before));
                    assert forall|i: int| 0 <= i < tokens@.len() implies
                        word_bounds_hold(t, (#[trigger] tokens@[i]).0@, tokens@[i].1) by {
                        assert(before.len() == tokens@.len());
                        assert(before[i] == (tokens@[i].0@, tokens@[i].1));
                        let ts = spec_tokenize(t)->Ok_0;
                        assert(ts == before);
                        assert(word_bounds_hold(t, ts[i].0, ts[i].1));
                    }
                }
                return Ok(tokens);
            },
            Some(Err(e)) => {
                return Err(e);
            },
            Some(Ok(None)) => {},
            Some(Ok(Some(token))) => {
                tokens.push(token);
                assert(tokens_view(tokens@) == before + seq![(token.0@, token.1)]);
                proof {
                    let rest = tokenize_from(t, iter.pos(), iter.peeker());
                    if rest is Ok {
                        assert(before + (seq![(token.0@, token.1)] + rest->Ok_0)
                            == tokens_view(tokens@) + rest->Ok_0);
                    }
                }
            },
        }
    }
}


/// An input/output error, kept as the standard library gives it.
#[verifier::external_type_specification]
#[verifier::external_body]
pub struct ExIoError(std::io::Error);

/// Why tokenizing a file failed.
#[derive(Debug)]
pub enum Error {
    /// The text of file `name` could not be tokenized; `related` holds the cause.
    Tokenizer { name: String, source_code: String, related: Vec<TokenError> },
    /// Reading the file failed.
    Io(std::io::Error),
}

/// Tokenizes the text `content` of the file called `name`; on failure the error carries the
/// file's name and text.
pub fn tokenize_file<'a>(name: &str, content: &'a str) -> (r: Result<Vec<(Token<'a>, SourceSpan)>, Error>)
    ensures
        match spec_tokenize(content@) {
            Ok(ts) => r matches Ok(v) && tokens_view(v@) == ts,
            Err(e) => r matches Err(Error::Tokenizer { name: n, source_code, related }) && {
                &&& n@ == name@
                &&& source_code@ == content@
                &&& related@.len() == 1
                &&& related@[0]@ == e
            },
        },
{
    match tokenize(content) {
        Ok(tokens) => Ok(tokens),
        Err(it) => {
            let mut related = Vec::new();
            related.push(it);
            Err(Error::Tokenizer {
                name: name.to_string(),
                source_code: content.to_string(),
                related,
            })
        },
    }
}


/// The text a token is spelled with in the source, for the tokens that are copied from it
/// verbatim: keywords, punctuation, operators and identifiers.
pub open spec fn token_spelling(x: TokenV) -> Option<Seq<char>> {
    match x {
        TokenV::Keyword(k) => Some(keyword_text(k)),
        TokenV::Punct(p) => Some(punct_text(p)),
        TokenV::Comparison(c) => Some(comparison_text(c)),
        TokenV::Assignment(a) => Some(assignment_text(a)),
        TokenV::Operator(o) => Some(operator_text(o)),
        TokenV::Literal(LiteralV::Identifier(s)) => Some(s),
        _ => None,
    }
}

/// A token read from position `s` spans from `s` to where the step stops, within the text,
/// and its source text is its spelling.
pub proof fn lemma_scan_token(t: Seq<char>, s: int)
    requires
        0 <= s < t.len(),
        t.len() <= usize::MAX,
    ensures
        scan(t, s).0 matches StepV::Token(x, sp) ==> {
            &&& sp.start == s
            &&& sp.end == scan(t, s).1
            &&& s < scan(t, s).1 <= t.len()
            &&& token_spelling(x) matches Some(w) ==> t.subrange(s, scan(t, s).1) == w
        },
{
    let c = t[s];
    assert(t.subrange(s, s + 1) =~= seq![c]);
    if s + 1 < t.len() {
        assert(t.subrange(s, s + 2) =~= seq![c, t[s + 1]]);
    }
    lemma_step_progress(t, s, 0);
    if c == '"' {
        lemma_string_body_len(t, s + 1, '"', 0);
    }
    if !is_whitespace_char(c) && !is_symbol_start(c) && (is_alphabetic_char(c) || c == '_') {
        lemma_ident_end(t, s + 1);
        lemma_try_parse_from(t, s + 1, c, 0);
        if is_alphabetic_char(c) && spec_try_parse(t, s + 1, 0, c) is Some {
            let k = spec_try_parse(t, s + 1, 0, c)->0;
            let w = keyword_text(k);
            lemma_keyword_text_len(k);
            assert(t.subrange(s, s + w.len()) =~= seq![c] + t.subrange(s + 1, s + w.len()));
            assert(w =~= seq![w[0]] + w.drop_first());
        }
    }
}


/// Tokens lie within the text from `lo` on, in order and without overlap, and every token
/// that is copied verbatim is spelled in the source exactly as the token is spelled.
pub open spec fn tokens_well_placed(t: Seq<char>, ts: Seq<(TokenV, SourceSpan)>, lo: int) -> bool {
    &&& forall|i: int| 0 <= i < ts.len() ==> lo <= (#[trigger] ts[i]).1.start < ts[i].1.end <= t.len()
    &&& forall|i: int| 0 <= i < ts.len() ==>
        (token_spelling((#[trigger] ts[i]).0) matches Some(w) ==> t.subrange(ts[i].1.start as int, ts[i].1.end as int) == w)
    &&& forall|i: int, j: int| 0 <= i < j < ts.len() ==> (#[trigger] ts[i]).1.end <= (#[trigger] ts[j]).1.start
}

proof fn lemma_tokenize_from_placed(t: Seq<char>, p: int, q: int)
    requires
        0 <= p,
        0 <= q,
        p + q <= t.len(),
        t.len() <= usize::MAX,
    ensures
        tokenize_from(t, p, q) matches Ok(ts) ==> tokens_well_placed(t, ts, p),
    decreases t.len() - p,
{
    lemma_step_progress(t, p, q);
    let (out, np, nq) = lex_step(t, p, q);
    let p1 = lex_start(t, p, q);
    if p + q < t.len() && is_whitespace_char(t[p + q]) {
        lemma_skip_from_bounds(t, p + 1, SkipClass::Whitespace);
    }
    match out {
        StepV::Skip => {
            lemma_tokenize_from_placed(t, np, nq);
        },
        StepV::Token(x, sp) => {
            lemma_tokenize_from_placed(t, np, nq);
            lemma_scan_token(t, p1);
            if let Ok(rest) = tokenize_from(t, np, nq) {
                let ts = seq![(x, sp)] + rest;
                assert(tokenize_from(t, p, q) == Ok::<_, TokenErrorV>(ts));
                assert forall|i: int| 0 <= i < ts.len() implies p <= (#[trigger] ts[i]).1.start < ts[i].1.end <= t.len() by {
                    if i > 0 {
                        assert(ts[i] == rest[i - 1]);
                    }
                }
                assert forall|i: int| 0 <= i < ts.len() implies
                    (token_spelling((#[trigger] ts[i]).0) matches Some(w) ==> t.subrange(ts[i].1.start as int, ts[i].1.end as int) == w) by {
                    if i > 0 {
                        assert(ts[i] == rest[i - 1]);
                    }
                }
                assert forall|i: int, j: int| 0 <= i < j < ts.len() implies (#[trigger] ts[i]).1.end <= (#[trigger] ts[j]).1.start by {
                    assert(ts[j] == rest[j - 1]);
                    if i > 0 {
                        assert(ts[i] == rest[i - 1]);
                    }
                }
            }
        },
        _ => {},
    }
}

/// The tokens of a text lie within it, in order and without overlap, each covering at least
/// one character; and every keyword, punctuation mark, operator and identifier is spelled in
/// the source exactly as the token is.
pub proof fn law_tokens_placed_and_spelled(t: Seq<char>)
    requires
        t.len() <= usize::MAX,
    ensures
        spec_tokenize(t) matches Ok(ts) ==> tokens_well_placed(t, ts, 0),
{
    lemma_tokenize_from_placed(t, 0, 0);
}

/// The tokens with a fixed spelling: keywords, punctuation, comparisons, assignments and
/// operators.
pub open spec fn has_fixed_spelling(x: TokenV) -> bool {
    x is Keyword || x is Punct || x is Comparison || x is Assignment || x is Operator
}

/// Reading keywords one character into `t` is reading them at the start of the rest of `t`.
proof fn lemma_try_parse_shift(t: Seq<char>, cur: char, i: int)
    requires
        t.len() >= 1,
    ensures
        try_parse_from(t, 1, 0, cur, i) == try_parse_from(t.drop_first(), 0, 0, cur, i),
    decreases 28 - i,
{
    if 0 <= i < 28 {
        let k = keyword_order()[i];
        let w = keyword_text(k);
        let n = w.len() - 1;
        let d = t.drop_first();
        lemma_keyword_text_len(k);
        if 1 + n <= t.len() {
            assert(t.subrange(1, 1 + n) =~= d.subrange(0, n));
            if 1 + n < t.len() {
                assert(t[1 + n] == d[n]);
            }
        }
        assert(keyword_matches(t, 1, 0, cur, k) == keyword_matches(d, 0, 0, cur, k));
        lemma_try_parse_shift(t, cur, i + 1);
    }
}

/// Every keyword is spelled from an ASCII letter on.
proof fn lemma_keyword_starts_with_letter(k: Keyword)
    ensures
        is_ascii_letter(keyword_text(k)[0]),
{
        match k {
        Keyword::Import => {},
        Keyword::Export => {},
        Keyword::Const => {},
        Keyword::Fn => {},
        Keyword::Objective => {},
        Keyword::Struct => {},
        Keyword::Enum => {},
        Keyword::Init => {},
        Keyword::Tick => {},
        Keyword::Pub => {},
        Keyword::Operator => {},
        Keyword::Ref => {},
        Keyword::Extends => {},
        Keyword::Typedef => {},
        Keyword::Let => {},
        Keyword::Return => {},
        Keyword::Break => {},
        Keyword::Continue => {},
        Keyword::As => {},
        Keyword::At => {},
        Keyword::If => {},
        Keyword::Else => {},
        Keyword::For => {},
        Keyword::In => {},
        Keyword::While => {},
        Keyword::Loop => {},
        Keyword::True => {},
        Keyword::False => {},
    }
}

/// The step that reads a keyword's spelling yields that keyword over the whole spelling.
proof fn lemma_keyword_lexes_back(k: Keyword)
    ensures
        ({
            let w = keyword_text(k);
            lex_step(w, 0, 0) == tok(TokenV::Keyword(k), 0, w.len() as int)
        }),
{
    let w = keyword_text(k);
    lemma_keyword_text_len(k);
    law_keyword_reads_back(k);
    lemma_try_parse_shift(w, w[0], 0);
    lemma_keyword_starts_with_letter(k);
    assert(skip_while_result(w, 0, 0, SkipClass::Whitespace) == (0int, 0int));
}

/// Lexing the spelling of a token with a fixed spelling gives back that same token, spanning
/// the whole text, and nothing else: one step reads it to the end, and tokenizing the
/// spelling yields exactly that token.
pub proof fn lemma_spelling_lexes_back(x: TokenV)
    requires
        has_fixed_spelling(x),
    ensures
        token_spelling(x) matches Some(w) && {
            &&& lex_step(w, 0, 0) == tok(x, 0, w.len() as int)
            &&& spec_tokenize(w) == Ok::<_, TokenErrorV>(seq![(x, span_of(0, w.len() as int))])
        },
{
    let w = token_spelling(x)->0;
    match x {
        TokenV::Keyword(k) => {
            lemma_keyword_lexes_back(k);
        },
        _ => {
            assert(lex_step(w, 0, 0) == tok(x, 0, w.len() as int));
        },
    }
    assert(lex_step(w, w.len() as int, 0).0 is Eof);
    assert(tokenize_from(w, w.len() as int, 0) == Ok::<_, TokenErrorV>(Seq::<(TokenV, SourceSpan)>::empty()));
    assert(seq![(x, span_of(0, w.len() as int))] + Seq::<(TokenV, SourceSpan)>::empty()
        =~= seq![(x, span_of(0, w.len() as int))]);
}

/// The characters that continue a word: letters, digits and `_`.
pub open spec fn is_word_char(c: char) -> bool {
    is_alphanumeric_char(c) || c == '_'
}

/// Whether keyword `k` is spelled at `s` of `t` with no letter or digit right after it.
pub open spec fn keyword_spelled_at(t: Seq<char>, s: int, k: Keyword) -> bool {
    let w = keyword_text(k);
    &&& 0 <= s
    &&& s + w.len() <= t.len()
    &&& t.subrange(s, s + w.len()) == w
    &&& (s + w.len() == t.len() || !is_alphanumeric_char(t[s + w.len()]))
}

/// What a keyword or identifier token spanning `sp` of `t` says of the characters around it.
///
/// An identifier starts with a letter or `_`, continues over letters, digits and `_` only,
/// stops just before a character that is none of these (or at the end of the text), and
/// does not start with a keyword's spelling that no letter or digit follows. A keyword is
/// never followed right away by a letter or a digit.
pub open spec fn word_bounds_hold(t: Seq<char>, x: TokenV, sp: SourceSpan) -> bool {
    let s = sp.start as int;
    let e = sp.end as int;
    &&& x is Literal && x->Literal_0 is Identifier ==> {
        &&& (is_alphabetic_char(t[s]) || t[s] == '_')
        &&& forall|j: int| s < j < e ==> is_word_char(#[trigger] t[j])
        &&& (e < t.len() ==> !is_word_char(t[e]))
        &&& forall|k: Keyword| !#[trigger] keyword_spelled_at(t, s, k)
    }
    &&& x is Keyword ==> (e < t.len() ==> !is_alphanumeric_char(t[e]))
}

/// A run of word characters from `i` covers only word characters and stops before one that
/// is not.
proof fn lemma_ident_end_maximal(t: Seq<char>, i: int)
    requires
        0 <= i <= t.len(),
    ensures
        forall|j: int| i <= j < ident_end(t, i) ==> is_word_char(#[trigger] t[j]),
        ident_end(t, i) < t.len() ==> !is_word_char(t[ident_end(t, i)]),
    decreases t.len() - i,
{
    if i < t.len() && is_word_char(t[i]) {
        lemma_ident_end_maximal(t, i + 1);
    }
}

/// A keyword or identifier read at `s` keeps to the word bounds.
proof fn lemma_scan_word_bounds(t: Seq<char>, s: int)
    requires
        0 <= s < t.len(),
        t.len() <= usize::MAX,
    ensures
        scan(t, s).0 matches StepV::Token(x, sp) ==> word_bounds_hold(t, x, sp),
{
    let c = t[s];
    if !is_whitespace_char(c) && !is_symbol_start(c) && (is_alphabetic_char(c) || c == '_') {
        lemma_ident_end(t, s + 1);
        lemma_ident_end_maximal(t, s + 1);
        lemma_try_parse_from(t, s + 1, c, 0);
        if is_alphabetic_char(c) && spec_try_parse(t, s + 1, 0, c) is Some {
            lemma_keyword_text_len(spec_try_parse(t, s + 1, 0, c)->0);
        } else {
            lemma_try_parse_none(t, s + 1, c, 0);
            assert forall|k: Keyword| !#[trigger] keyword_spelled_at(t, s, k) by {
                if keyword_spelled_at(t, s, k) {
                    let w = keyword_text(k);
                    let n = w.len() - 1;
                    lemma_keyword_text_len(k);
                    lemma_keyword_starts_with_letter(k);
                    assert(t.subrange(s, s + w.len())[0] == w[0]);
                    assert(t.subrange(s + 1, s + 1 + n) =~= w.drop_first()) by {
                        assert forall|j: int| 0 <= j < n implies t.subrange(s + 1, s + 1 + n)[j] == w.drop_first()[j] by {
                            assert(t.subrange(s, s + w.len())[j + 1] == w[j + 1]);
                        }
                    }
                    assert(keyword_matches(t, s + 1, 0, c, k));
                    assert(keyword_order()[keyword_index(k)] == k);
                }
            }
        }
    }
}

/// When no keyword is read, none of those tried matches.
proof fn lemma_try_parse_none(t: Seq<char>, p: int, cur: char, i: int)
    requires
        0 <= i <= 28,
        try_parse_from(t, p, 0, cur, i) is None,
    ensures
        forall|j: int| i <= j < 28 ==> !keyword_matches(t, p, 0, cur, #[trigger] keyword_order()[j]),
    decreases 28 - i,
{
    if i < 28 {
        lemma_try_parse_none(t, p, cur, i + 1);
    }
}

proof fn lemma_tokenize_from_word_bounds(t: Seq<char>, p: int, q: int)
    requires
        0 <= p,
        0 <= q,
        p + q <= t.len(),
        t.len() <= usize::MAX,
    ensures
        tokenize_from(t, p, q) matches Ok(ts) ==>
            forall|i: int| 0 <= i < ts.len() ==> word_bounds_hold(t, (#[trigger] ts[i]).0, ts[i].1),
    decreases t.len() - p,
{
    lemma_step_progress(t, p, q);
    let (out, np, nq) = lex_step(t, p, q);
    let p1 = lex_start(t, p, q);
    if p + q < t.len() && is_whitespace_char(t[p + q]) {
        lemma_skip_from_bounds(t, p + 1, SkipClass::Whitespace);
    }
    match out {
        StepV::Skip => {
            lemma_tokenize_from_word_bounds(t, np, nq);
        },
        StepV::Token(x, sp) => {
            lemma_tokenize_from_word_bounds(t, np, nq);
            lemma_scan_word_bounds(t, p1);
            if let Ok(rest) = tokenize_from(t, np, nq) {
                let ts = seq![(x, sp)] + rest;
                assert(tokenize_from(t, p, q) == Ok::<_, TokenErrorV>(ts));
                assert forall|i: int| 0 <= i < ts.len() implies word_bounds_hold(t, (#[trigger] ts[i]).0, ts[i].1) by {
                    if i > 0 {
                        assert(ts[i] == rest[i - 1]);
                    }
                }
            }
        },
        _ => {},
    }
}

/// Words are read whole: every identifier that the tokenizer yields starts with a letter or
/// `_`, spans only letters, digits and `_`, and is followed by none of these, so a word is
/// never split into several tokens; and a keyword is yielded only where no letter or digit
/// follows its spelling, so `for1` is an identifier and not the keyword `for`.
pub proof fn law_words_are_read_whole(t: Seq<char>)
    requires
        t.len() <= usize::MAX,
    ensures
        spec_tokenize(t) matches Ok(ts) ==>
            forall|i: int| 0 <= i < ts.len() ==> word_bounds_hold(t, (#[trigger] ts[i]).0, ts[i].1),
{
    lemma_tokenize_from_word_bounds(t, 0, 0);
}

} // verus!

//! Semantic highlighting: the token kinds an editor colours, and the relative encoding of
//! a token list as semantic tokens.
use vstd::prelude::*;
use crate::span::SourceSpan;
use crate::text::str_chars;
use crate::token::{LiteralV, Token, TokenV};
use crate::tokenizer::{self, law_tokens_placed_and_spelled, spec_tokenize, tokens_view, tokens_well_placed};

verus! {

/// The semantic token kinds, in the order of the legend.
#[allow(non_camel_case_types)]
#[derive(Clone, Copy, Debug, PartialEq, Eq, Structural)]
pub enum TokenTypes {
    NAMESPACE,
    TYPE,
    CLASS,
    ENUM,
    INTERFACE,
    STRUCT,
    TYPE_PARAMETER,
    PARAMETER,
    VARIABLE,
    PROPERTY,
    ENUM_MEMBER,
    EVENT,
    FUNCTION,
    METHOD,
    MACRO,
    KEYWORD,
    MODIFIER,
    COMMENT,
    STRING,
    NUMBER,
    REGEXP,
    OPERATOR,
    DECORATOR,
}

/// Every kind, in the order of the legend.
pub open spec fn all_token_types() -> Seq<TokenTypes> {
    seq![
        TokenTypes::NAMESPACE,
        TokenTypes::TYPE,
        TokenTypes::CLASS,
        TokenTypes::ENUM,
        TokenTypes::INTERFACE,
        TokenTypes::STRUCT,
        TokenTypes::TYPE_PARAMETER,
        TokenTypes::PARAMETER,
        TokenTypes::VARIABLE,
        TokenTypes::PROPERTY,
        TokenTypes::ENUM_MEMBER,
        TokenTypes::EVENT,
        TokenTypes::FUNCTION,
        TokenTypes::METHOD,
        TokenTypes::MACRO,
        TokenTypes::KEYWORD,
        TokenTypes::MODIFIER,
        TokenTypes::COMMENT,
        TokenTypes::STRING,
        TokenTypes::NUMBER,
        TokenTypes::REGEXP,
        TokenTypes::OPERATOR,
        TokenTypes::DECORATOR,
    ]
}

/// The place of a kind in the legend.
pub open spec fn type_index(t: TokenTypes) -> u32 {
    match t {
        TokenTypes::NAMESPACE => 0,
        TokenTypes::TYPE => 1,
        TokenTypes::CLASS => 2,
        TokenTypes::ENUM => 3,
        TokenTypes::INTERFACE => 4,
        TokenTypes::STRUCT => 5,
        TokenTypes::TYPE_PARAMETER => 6,
        TokenTypes::PARAMETER => 7,
        TokenTypes::VARIABLE => 8,
        TokenTypes::PROPERTY => 9,
        TokenTypes::ENUM_MEMBER => 10,
        TokenTypes::EVENT => 11,
        TokenTypes::FUNCTION => 12,
        TokenTypes::METHOD => 13,
        TokenTypes::MACRO => 14,
        TokenTypes::KEYWORD => 15,
        TokenTypes::MODIFIER => 16,
        TokenTypes::COMMENT => 17,
        TokenTypes::STRING => 18,
        TokenTypes::NUMBER => 19,
        TokenTypes::REGEXP => 20,
        TokenTypes::OPERATOR => 21,
        TokenTypes::DECORATOR => 22,
    }
}

/// The legend lists each kind at its own index.
pub proof fn law_legend_index(i: int)
    requires
        0 <= i < all_token_types().len(),
    ensures
        type_index(all_token_types()[i]) == i,
        all_token_types().len() == 23,
{
}

impl TokenTypes {
    /// Every kind, in the order of the legend.
    pub fn all() -> (r: Vec<TokenTypes>)
        ensures
            r@ == all_token_types(),
    {
        let r = vec![
            TokenTypes::NAMESPACE,
            TokenTypes::TYPE,
            TokenTypes::CLASS,
            TokenTypes::ENUM,
            TokenTypes::INTERFACE,
            TokenTypes::STRUCT,
            TokenTypes::TYPE_PARAMETER,
            TokenTypes::PARAMETER,
            TokenTypes::VARIABLE,
            TokenTypes::PROPERTY,
            TokenTypes::ENUM_MEMBER,
            TokenTypes::EVENT,
            TokenTypes::FUNCTION,
            TokenTypes::METHOD,
            TokenTypes::MACRO,
            TokenTypes::KEYWORD,
            TokenTypes::MODIFIER,
            TokenTypes::COMMENT,
            TokenTypes::STRING,
            TokenTypes::NUMBER,
            TokenTypes::REGEXP,
            TokenTypes::OPERATOR,
            TokenTypes::DECORATOR,
        ];
        assert(r@ == all_token_types());
        r
    }

    /// The place of this kind in the legend.
    pub fn index(&self) -> (r: u32)
        ensures
            r == type_index(*self),
    {
        match self {
            TokenTypes::NAMESPACE => 0,
            TokenTypes::TYPE => 1,
            TokenTypes::CLASS => 2,
            TokenTypes::ENUM => 3,
            TokenTypes::INTERFACE => 4,
            TokenTypes::STRUCT => 5,
            TokenTypes::TYPE_PARAMETER => 6,
            TokenTypes::PARAMETER => 7,
            TokenTypes::VARIABLE => 8,
            TokenTypes::PROPERTY => 9,
            TokenTypes::ENUM_MEMBER => 10,
            TokenTypes::EVENT => 11,
            TokenTypes::FUNCTION => 12,
            TokenTypes::METHOD => 13,
            TokenTypes::MACRO => 14,
            TokenTypes::KEYWORD => 15,
            TokenTypes::MODIFIER => 16,
            TokenTypes::COMMENT => 17,
            TokenTypes::STRING => 18,
            TokenTypes::NUMBER => 19,
            TokenTypes::REGEXP => 20,
            TokenTypes::OPERATOR => 21,
            TokenTypes::DECORATOR => 22,
        }
    }
}

/// The kind a token is coloured as: keywords as keywords, punctuation as decorators,
/// comparisons, assignments and operators as operators, identifiers as namespaces, strings
/// as strings and every number as a number.
pub open spec fn token_kind(t: TokenV) -> TokenTypes {
    match t {
        TokenV::Keyword(_) => TokenTypes::KEYWORD,
        TokenV::Punct(_) => TokenTypes::DECORATOR,
        TokenV::Comparison(_) | TokenV::Assignment(_) | TokenV::Operator(_) => TokenTypes::OPERATOR,
        TokenV::Literal(l) => match l {
            LiteralV::Identifier(_) => TokenTypes::NAMESPACE,
            LiteralV::String(_) => TokenTypes::STRING,
            _ => TokenTypes::NUMBER,
        },
    }
}

/// The kind a token is coloured as (see `token_kind`).
pub fn kind_of(t: &Token) -> (r: TokenTypes)
    ensures
        r == token_kind(t@),
{
    match t {
        Token::Keyword(_) => TokenTypes::KEYWORD,
        Token::Punct(_) => TokenTypes::DECORATOR,
        Token::Comparison(_) | Token::Assignment(_) | Token::Operator(_) => TokenTypes::OPERATOR,
        Token::Literal(l) => match l {
            crate::token::Literal::Identifier(_) => TokenTypes::NAMESPACE,
            crate::token::Literal::String(_) => TokenTypes::STRING,
            _ => TokenTypes::NUMBER,
        },
    }
}

/// The number of line breaks among the first `n` characters of `s`.
pub open spec fn line_of(s: Seq<char>, n: int) -> int
    decreases n,
{
    if n <= 0 {
        0
    } else {
        line_of(s, n - 1) + if s[n - 1] == '\n' { 1int } else { 0int }
    }
}

/// Where the line holding offset `n` starts: just after the last line break among the first
/// `n` characters of `s`, or 0.
pub open spec fn line_start(s: Seq<char>, n: int) -> int
    decreases n,
{
    if n <= 0 {
        0
    } else if s[n - 1] == '\n' {
        n
    } else {
        line_start(s, n - 1)
    }
}

pub proof fn lemma_line_bounds(s: Seq<char>, n: int)
    requires
        0 <= n,
    ensures
        0 <= line_of(s, n) <= n,
        0 <= line_start(s, n) <= n,
    decreases n,
{
    if n > 0 {
        lemma_line_bounds(s, n - 1);
    }
}

/// The line and column of character offset `off` in `s`, both counted from 0. An offset past
/// the end is taken on the last line.
pub open spec fn position_of(s: Seq<char>, off: int) -> (int, int) {
    let n = if off < s.len() { off } else { s.len() as int };
    (line_of(s, n), off - line_start(s, n))
}

/// The line and column of offset `off` among `chars`.
fn position_in(chars: &Vec<char>, off: usize) -> (r: (usize, usize))
    ensures
        r.0 == position_of(chars@, off as int).0,
        r.1 == position_of(chars@, off as int).1,
{
    let n = if off < chars.len() { off } else { chars.len() };
    let mut i: usize = 0;
    let mut line: usize = 0;
    let mut start: usize = 0;
    while i < n
        invariant
            n <= chars@.len(),
            n <= off,
            i <= n,
            line == line_of(chars@, i as int),
            start == line_start(chars@, i as int),
        decreases n - i,
    {
        proof {
            lemma_line_bounds(chars@, i as int);
        }
        if chars[i] == '\n' {
            line = line + 1;
            start = i + 1;
        }
        i = i + 1;
    }
    proof {
        lemma_line_bounds(chars@, n as int);
    }
    (line, off - start)
}

impl SourceSpan {
    /// The line and column where this span starts in `text`, both counted from 0.
    pub fn position(&self, text: &str) -> (r: (usize, usize))
        ensures
            r.0 == position_of(text@, self.start as int).0,
            r.1 == position_of(text@, self.start as int).1,
    {
        let chars = str_chars(text);
        position_in(&chars, self.start)
    }

    /// The number of characters the span covers.
    pub fn length(&self) -> (r: usize)
        requires
            self.start <= self.end,
        ensures
            r == self.end - self.start,
    {
        self.end - self.start
    }
}

/// A token as an editor receives it: its line relative to the line kept from the token
/// before, its column relative to the previous token's when on that line, its length, and
/// the place of its kind in the legend.
#[derive(Clone, Copy, Debug, PartialEq, Eq, Structural)]
pub struct SemanticToken {
    pub delta_line: u32,
    pub delta_start: u32,
    pub length: u32,
    pub token_modifiers_bitset: u32,
    pub token_type: u32,
}

/// The encoding of the tokens from `i` on, where `line` and `pos` are what the encoding
/// kept from the token before: the line delta and the column of that token.
///
/// The line kept for the next token is the delta just computed, not the absolute line. The
/// encoding fails (`None`) where a delta would be negative or a span ends before it starts.
pub open spec fn encode_from(s: Seq<char>, toks: Seq<(TokenV, SourceSpan)>, i: int, line: int, pos: int) -> Option<Seq<SemanticToken>>
    decreases toks.len() - i,
{
    if i < 0 || i >= toks.len() {
        Some(Seq::empty())
    } else {
        let span = toks[i].1;
        let (s_line, s_pos) = position_of(s, span.start as int);
        let delta_line = s_line - line;
        let base = if line != s_line { 0 } else { pos };
        let delta_start = s_pos - base;
        if delta_line < 0 || delta_start < 0 || span.end < span.start {
            None
        } else {
            let tok = SemanticToken {
                delta_line: delta_line as u32,
                delta_start: delta_start as u32,
                length: (span.end - span.start) as u32,
                token_modifiers_bitset: 0,
                token_type: type_index(token_kind(toks[i].0)),
            };
            match encode_from(s, toks, i + 1, delta_line, s_pos) {
                Some(rest) => Some(seq![tok] + rest),
                None => None,
            }
        }
    }
}

/// The encoding of a whole token list of `content`.
pub open spec fn encode_spec(s: Seq<char>, toks: Seq<(TokenV, SourceSpan)>) -> Option<Seq<SemanticToken>> {
    encode_from(s, toks, 0, 0, 0)
}

pub open spec fn prefixed(a: Seq<SemanticToken>, o: Option<Seq<SemanticToken>>) -> Option<Seq<SemanticToken>> {
    match o {
        Some(r) => Some(a + r),
        None => None,
    }
}

/// Every token gets exactly one semantic token, in order, coloured by the token's kind and
/// as long as the token's span.
pub proof fn law_one_semantic_token_per_token(s: Seq<char>, toks: Seq<(TokenV, SourceSpan)>)
    ensures
        encode_spec(s, toks) matches Some(v) ==> {
            &&& v.len() == toks.len()
            &&& forall|i: int| 0 <= i < toks.len() ==> {
                &&& (#[trigger] v[i]).token_type == type_index(token_kind(toks[i].0))
                &&& v[i].length == (toks[i].1.end - toks[i].1.start) as u32
                &&& v[i].token_modifiers_bitset == 0
            }
        },
{
    lemma_encode_from(s, toks, 0, 0, 0);
}

proof fn lemma_encode_from(s: Seq<char>, toks: Seq<(TokenV, SourceSpan)>, i: int, line: int, pos: int)
    requires
        0 <= i <= toks.len(),
    ensures
        encode_from(s, toks, i, line, pos) matches Some(v) ==> {
            &&& v.len() == toks.len() - i
            &&& forall|j: int| 0 <= j < v.len() ==> {
                &&& (#[trigger] v[j]).token_type == type_index(token_kind(toks[i + j].0))
                &&& v[j].length == (toks[i + j].1.end - toks[i + j].1.start) as u32
                &&& v[j].token_modifiers_bitset == 0
            }
        },
    decreases toks.len() - i,
{
    if i < toks.len() {
        let span = toks[i].1;
        let (s_line, s_pos) = position_of(s, span.start as int);
        lemma_encode_from(s, toks, i + 1, s_line - line, s_pos);
        if encode_from(s, toks, i, line, pos) is Some {
            let v = encode_from(s, toks, i, line, pos)->0;
            let rest = encode_from(s, toks, i + 1, s_line - line, s_pos)->0;
            assert forall|j: int| 0 <= j < v.len() implies {
                &&& (#[trigger] v[j]).token_type == type_index(token_kind(toks[i + j].0))
                &&& v[j].length == (toks[i + j].1.end - toks[i + j].1.start) as u32
                &&& v[j].token_modifiers_bitset == 0
            } by {
                if j > 0 {
                    assert(v[j] == rest[j - 1]);
                    assert(i + 1 + (j - 1) == i + j);
                }
            }
        }
    }
}

/// Lines only grow along the text, and two offsets on the same line share its start.
proof fn lemma_lines_grow(s: Seq<char>, n1: int, n2: int)
    requires
        0 <= n1 <= n2 <= s.len(),
    ensures
        line_of(s, n1) <= line_of(s, n2),
        line_of(s, n1) == line_of(s, n2) ==> line_start(s, n1) == line_start(s, n2),
    decreases n2 - n1,
{
    if n1 < n2 {
        lemma_lines_grow(s, n1, n2 - 1);
    }
}

/// Positions grow with offsets: the line never decreases, and on the same line the column
/// grows by the distance between the offsets.
proof fn lemma_position_grows(s: Seq<char>, o1: int, o2: int)
    requires
        0 <= o1 <= o2,
    ensures
        position_of(s, o1).0 <= position_of(s, o2).0,
        0 <= position_of(s, o1).0,
        0 <= position_of(s, o1).1,
        position_of(s, o1).0 == position_of(s, o2).0 ==> position_of(s, o2).1 - position_of(s, o1).1 == o2 - o1,
{
    let n1 = if o1 < s.len() { o1 } else { s.len() as int };
    let n2 = if o2 < s.len() { o2 } else { s.len() as int };
    lemma_lines_grow(s, n1, n2);
    lemma_line_bounds(s, n1);
}

proof fn lemma_encode_placed(s: Seq<char>, toks: Seq<(TokenV, SourceSpan)>, i: int, line: int, pos: int)
    requires
        0 <= i <= toks.len(),
        tokens_well_placed(s, toks, 0),
        0 <= line,
        i == 0 ==> line == 0 && pos == 0,
        i > 0 ==> line <= position_of(s, toks[i - 1].1.start as int).0 && pos == position_of(s, toks[i - 1].1.start as int).1,
    ensures
        encode_from(s, toks, i, line, pos) is Some,
    decreases toks.len() - i,
{
    if i < toks.len() {
        let span = toks[i].1;
        let (s_line, s_pos) = position_of(s, span.start as int);
        assert(span.start < span.end);
        lemma_position_grows(s, span.start as int, span.start as int);
        if i > 0 {
            let prev = toks[i - 1].1;
            assert(prev.start < prev.end && prev.end <= span.start);
            lemma_position_grows(s, prev.start as int, span.start as int);
        }
        lemma_encode_placed(s, toks, i + 1, s_line - line, s_pos);
    }
}

/// The tokenizer's output can always be encoded: its tokens come in the order of the text,
/// so no delta is negative.
pub proof fn law_tokenizer_output_encodes(t: Seq<char>)
    requires
        t.len() <= usize::MAX,
    ensures
        spec_tokenize(t) matches Ok(ts) ==> encode_spec(t, ts) is Some,
{
    law_tokens_placed_and_spelled(t);
    if spec_tokenize(t) is Ok {
        lemma_encode_placed(t, spec_tokenize(t)->Ok_0, 0, 0, 0);
    }
}

/// Encodes the tokens of `content` for an editor, one semantic token per token, or `None`
/// where the tokens are out of order so that a delta would be negative.
pub fn semantic_tokens<'a>(content: &str, tokens: &Vec<(Token<'a>, SourceSpan)>) -> (r: Option<Vec<SemanticToken>>)
    ensures
        match encode_spec(content@, tokens_view(tokens@)) {
            Some(ts) => r matches Some(v) && v@ == ts,
            None => r is None,
        },
{
    let chars = str_chars(content);
    let ghost s = content@;
    let ghost toks = tokens_view(tokens@);
    let mut out: Vec<SemanticToken> = Vec::new();
    let mut line: usize = 0;
    let mut pos: usize = 0;
    let mut i: usize = 0;
    while i < tokens.len()
        invariant
            chars@ == s,
            s == content@,
            toks == tokens_view(tokens@),
            toks.len() == tokens@.len(),
            i <= tokens@.len(),
            encode_spec(s, toks) == prefixed(out@, encode_from(s, toks, i as int, line as int, pos as int)),
        decreases tokens@.len() - i,
    {
        let span = tokens[i].1;
        let (s_line, s_pos) = position_in(&chars, span.start);
        let base = if line != s_line { 0 } else { pos };
        proof {
            assert(toks[i as int] == (tokens@[i as int].0@, tokens@[i as int].1));
        }
        if s_line < line || s_pos < base || span.end < span.start {
            return None;
        }
        let delta_line = s_line - line;
        let delta_start = s_pos - base;
        let tok = SemanticToken {
            delta_line: #[verifier::truncate] (delta_line as u32),
            delta_start: #[verifier::truncate] (delta_start as u32),
            length: #[verifier::truncate] ((span.end - span.start) as u32),
            token_modifiers_bitset: 0,
            token_type: kind_of(&tokens[i].0).index(),
        };
        proof {
            let rest = encode_from(s, toks, i + 1, delta_line as int, s_pos as int);
            match rest {
                Some(r) => {
                    assert(out@ + (seq![tok] + r) == out@.push(tok) + r);
                },
                None => {},
            }
        }
        out.push(tok);
        line = delta_line;
        pos = s_pos;
        i = i + 1;
    }
    assert(out@ + Seq::<SemanticToken>::empty() == out@);
    Some(out)
}

/// Tokenizes the text `content` of the file called `name` and encodes its tokens for an
/// editor. Fails exactly when tokenizing fails; the encoding itself always succeeds.
pub fn semantic_tokens_of_file(name: &str, content: &str) -> (r: Result<Vec<SemanticToken>, tokenizer::Error>)
    ensures
        match spec_tokenize(content@) {
            Ok(ts) => r matches Ok(v) && encode_spec(content@, ts) == Some(v@),
            Err(_) => r is Err,
        },
{
    // Reading the length tells the verifier that it fits in a usize.
    let _n = content.unicode_len();
    proof { law_tokenizer_output_encodes(content@); }
    match tokenizer::tokenize_file(name, content) {
        Ok(tokens) => match semantic_tokens(content, &tokens) {
            Some(v) => Ok(v),
            None => {
                assert(false);
                Ok(Vec::new())
            },
        },
        Err(e) => Err(e),
    }
}

} // verus!

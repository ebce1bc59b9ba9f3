//! How tokens and token trees are printed.
use vstd::prelude::*;
use crate::keyword::keyword_text;
use crate::owned::{owned_trees_view, OwnedLiteral, OwnedToken};
use crate::span::SourceSpan;
use crate::tast::{self, flatten, flatten_one, kinds, law_tast_round_trip, lemma_trees_view, spec_tast, trees_view, unleaf, TreeV};
use crate::token::{
    assignment_text, comparison_text, operator_text, punct_text, BraceType, Literal, LiteralV, Punct, Token,
    TokenV,
};
use crate::chars::{char_debug, char_debug_text, parse_int_error_text};
use crate::lexer::{self, ErrorV};
use crate::parser::FullError;
use crate::token::{brace_text, TokenError, TokenErrorV};
use crate::tokenizer::{self, tokens_view};

verus! {

/// The character of a decimal digit.
pub open spec fn digit_char(d: int) -> char {
    if d == 0 {
        '0'
    } else if d == 1 {
        '1'
    } else if d == 2 {
        '2'
    } else if d == 3 {
        '3'
    } else if d == 4 {
        '4'
    } else if d == 5 {
        '5'
    } else if d == 6 {
        '6'
    } else if d == 7 {
        '7'
    } else if d == 8 {
        '8'
    } else {
        '9'
    }
}

/// The decimal digits of `n`, without leading zeros (`0` for zero).
pub open spec fn decimal_text(n: nat) -> Seq<char>
    decreases n,
{
    if n < 10 {
        seq![digit_char(n as int)]
    } else {
        decimal_text(n / 10).push(digit_char((n % 10) as int))
    }
}

/// An integer in decimal, with a minus sign when negative.
pub open spec fn int_text(v: int) -> Seq<char> {
    if v < 0 {
        seq!['-'] + decimal_text((-v) as nat)
    } else {
        decimal_text(v as nat)
    }
}

/// How a literal is printed: identifiers as they are, strings between double quotes,
/// integers in decimal, and floating-point numbers with the digits they were written with.
pub open spec fn literal_text(l: LiteralV) -> Seq<char> {
    match l {
        LiteralV::Identifier(s) => s,
        LiteralV::String(s) => seq!['"'] + s + seq!['"'],
        LiteralV::Int(v) => int_text(v as int),
        LiteralV::Long(v) => int_text(v as int),
        LiteralV::Byte(v) => int_text(v as int),
        LiteralV::Float(s) => s,
        LiteralV::Double(s) => s,
    }
}

/// How a flat token is printed.
pub open spec fn token_text(t: TokenV) -> Seq<char> {
    match t {
        TokenV::Keyword(k) => keyword_text(k),
        TokenV::Punct(p) => punct_text(p),
        TokenV::Comparison(c) => comparison_text(c),
        TokenV::Assignment(a) => assignment_text(a),
        TokenV::Operator(o) => operator_text(o),
        TokenV::Literal(l) => literal_text(l),
    }
}

/// How punctuation of a token tree is printed.
pub open spec fn tree_punct_text(p: tast::Punct) -> Seq<char> {
    match p {
        tast::Punct::Hash => seq!['#'],
        tast::Punct::Semi => seq![';'],
        tast::Punct::Comma => seq![','],
        tast::Punct::Colon => seq![':'],
    }
}

/// How a token tree is printed: a group as its opening delimiter, its items printed one
/// after another with nothing between them, and its closing delimiter.
pub open spec fn tree_text(x: TreeV) -> Seq<char>
    decreases x,
{
    match x {
        TreeV::Keyword(k) => keyword_text(k),
        TreeV::Punct(p) => tree_punct_text(p),
        TreeV::Comparison(c) => comparison_text(c),
        TreeV::Assignment(a) => assignment_text(a),
        TreeV::Operator(o) => operator_text(o),
        TreeV::Literal(l) => literal_text(l),
        TreeV::Group(b, items) => punct_text(Punct::GroupStart(b)) + forest_text(items) + punct_text(Punct::GroupEnd(b)),
    }
}

/// The texts of a list of token trees, one after another.
pub open spec fn forest_text(s: Seq<(TreeV, SourceSpan)>) -> Seq<char>
    decreases s,
{
    if s.len() == 0 {
        Seq::empty()
    } else {
        forest_text(s.drop_last()) + tree_text(s.last().0)
    }
}

/// The texts of a list of token trees, separated by single spaces.
pub open spec fn spaced_text(s: Seq<(TreeV, SourceSpan)>) -> Seq<char>
    decreases s.len(),
{
    if s.len() == 0 {
        Seq::empty()
    } else if s.len() == 1 {
        tree_text(s[0].0)
    } else {
        spaced_text(s.drop_last()) + seq![' '] + tree_text(s.last().0)
    }
}

/// The texts of a list of flat tokens, separated by single spaces.
pub open spec fn spaced_tokens_text(s: Seq<(TokenV, SourceSpan)>) -> Seq<char>
    decreases s.len(),
{
    if s.len() == 0 {
        Seq::empty()
    } else if s.len() == 1 {
        token_text(s[0].0)
    } else {
        spaced_tokens_text(s.drop_last()) + seq![' '] + token_text(s.last().0)
    }
}

/// The texts of a list of flat tokens, one after another.
pub open spec fn tokens_concat(ts: Seq<TokenV>) -> Seq<char>
    decreases ts.len(),
{
    if ts.len() == 0 {
        Seq::empty()
    } else {
        tokens_concat(ts.drop_last()) + token_text(ts.last())
    }
}

proof fn lemma_tokens_concat_add(a: Seq<TokenV>, b: Seq<TokenV>)
    ensures
        tokens_concat(a + b) == tokens_concat(a) + tokens_concat(b),
    decreases b.len(),
{
    if b.len() == 0 {
        assert(a + b =~= a);
        assert(tokens_concat(a) + tokens_concat(b) =~= tokens_concat(a));
    } else {
        lemma_tokens_concat_add(a, b.drop_last());
        assert((a + b).drop_last() =~= a + b.drop_last());
        assert((a + b).last() == b.last());
        assert(tokens_concat(a + b) =~= tokens_concat(a) + tokens_concat(b));
    }
}

proof fn lemma_tree_text_flat(x: TreeV)
    ensures
        tree_text(x) == tokens_concat(flatten_one(x)),
    decreases x,
{
    match x {
        TreeV::Group(b, items) => {
            lemma_forest_text_flat(items);
            let start = seq![TokenV::Punct(Punct::GroupStart(b))];
            let end = seq![TokenV::Punct(Punct::GroupEnd(b))];
            lemma_tokens_concat_add(start + flatten(items), end);
            lemma_tokens_concat_add(start, flatten(items));
            assert(tokens_concat(start) =~= token_text(TokenV::Punct(Punct::GroupStart(b)))) by {
                assert(start.drop_last() =~= Seq::<TokenV>::empty());
                assert(tokens_concat(Seq::<TokenV>::empty()) == Seq::<char>::empty());
                assert(start.last() == TokenV::Punct(Punct::GroupStart(b)));
            }
            assert(tokens_concat(end) =~= token_text(TokenV::Punct(Punct::GroupEnd(b)))) by {
                assert(end.drop_last() =~= Seq::<TokenV>::empty());
            }
            assert(tree_text(x) =~= tokens_concat(flatten_one(x)));
        },
        _ => {
            let one = seq![unleaf(x)];
            assert(one.drop_last() =~= Seq::<TokenV>::empty());
            assert(tokens_concat(Seq::<TokenV>::empty()) == Seq::<char>::empty());
            assert(one.last() == unleaf(x));
            assert(tokens_concat(one) =~= token_text(unleaf(x)));
            assert(tree_text(x) =~= token_text(unleaf(x)));
        },
    }
}

proof fn lemma_forest_text_flat(s: Seq<(TreeV, SourceSpan)>)
    ensures
        forest_text(s) == tokens_concat(flatten(s)),
    decreases s,
{
    if s.len() > 0 {
        lemma_forest_text_flat(s.drop_last());
        lemma_tree_text_flat(s.last().0);
        lemma_tokens_concat_add(flatten(s.drop_last()), flatten_one(s.last().0));
    } else {
        assert(tokens_concat(flatten(s)) =~= Seq::<char>::empty());
    }
}

/// Printing the token trees built from a token list one after another prints the list's
/// tokens one after another.
pub proof fn law_tree_text_is_token_text(ts: Seq<(TokenV, SourceSpan)>)
    ensures
        spec_tast(ts) matches Ok(trees) ==> forest_text(trees) == tokens_concat(kinds(ts)),
{
    law_tast_round_trip(ts);
    if spec_tast(ts) is Ok {
        lemma_forest_text_flat(spec_tast(ts)->Ok_0);
    }
}

/// The one-character text of a decimal digit.
fn digit_str(d: u64) -> (r: &'static str)
    requires
        d < 10,
    ensures
        r@ == seq![digit_char(d as int)],
{
    if d == 0 {
        proof { reveal_strlit("0"); }
        "0"
    } else if d == 1 {
        proof { reveal_strlit("1"); }
        "1"
    } else if d == 2 {
        proof { reveal_strlit("2"); }
        "2"
    } else if d == 3 {
        proof { reveal_strlit("3"); }
        "3"
    } else if d == 4 {
        proof { reveal_strlit("4"); }
        "4"
    } else if d == 5 {
        proof { reveal_strlit("5"); }
        "5"
    } else if d == 6 {
        proof { reveal_strlit("6"); }
        "6"
    } else if d == 7 {
        proof { reveal_strlit("7"); }
        "7"
    } else if d == 8 {
        proof { reveal_strlit("8"); }
        "8"
    } else {
        proof { reveal_strlit("9"); }
        "9"
    }
}

/// Appends the decimal digits of `n`.
fn write_decimal(out: &mut String, n: u64)
    ensures
        final(out)@ == old(out)@ + decimal_text(n as nat),
    decreases n,
{
    if n >= 10 {
        write_decimal(out, n / 10);
        let ghost mid = out@;
        out.append(digit_str(n % 10));
        assert(out@ == old(out)@ + decimal_text(n as nat)) by {
            assert(decimal_text(n as nat) == decimal_text((n / 10) as nat).push(digit_char((n % 10) as int)));
            assert(mid + seq![digit_char((n % 10) as int)] =~= old(out)@ + decimal_text((n / 10) as nat).push(digit_char((n % 10) as int)));
        }
    } else {
        out.append(digit_str(n));
    }
}

/// Appends `v` in decimal.
fn write_int(out: &mut String, v: i64)
    ensures
        final(out)@ == old(out)@ + int_text(v as int),
{
    if v < 0 {
        proof { reveal_strlit("-"); }
        out.append("-");
        let ghost mid = out@;
        let m: u64 = (-(v as i128)) as u64;
        write_decimal(out, m);
        assert(out@ =~= old(out)@ + int_text(v as int));
    } else {
        write_decimal(out, v as u64);
    }
}

/// `v` in decimal, with a minus sign when negative.
pub fn int_to_string(v: i64) -> (r: String)
    ensures
        r@ == int_text(v as int),
{
    let mut out = String::new();
    write_int(&mut out, v);
    assert(out@ =~= int_text(v as int));
    out
}

/// Appends a string between double quotes.
fn write_quoted(out: &mut String, s: &str)
    ensures
        final(out)@ == old(out)@ + (seq!['"'] + s@ + seq!['"']),
{
    proof { reveal_strlit("\""); }
    out.append("\"");
    out.append(s);
    out.append("\"");
    assert(out@ =~= old(out)@ + (seq!['"'] + s@ + seq!['"']));
}

fn write_literal(out: &mut String, l: &Literal)
    ensures
        final(out)@ == old(out)@ + literal_text(l@),
{
    match l {
        Literal::Identifier(s) => out.append(s),
        Literal::String(s) => write_quoted(out, s),
        Literal::Int(v) => write_int(out, *v as i64),
        Literal::Long(v) => write_int(out, *v),
        Literal::Byte(v) => write_int(out, *v as i64),
        Literal::Float(s) => out.append(s),
        Literal::Double(s) => out.append(s),
    }
}

fn write_owned_literal(out: &mut String, l: &OwnedLiteral)
    ensures
        final(out)@ == old(out)@ + literal_text(l@),
{
    match l {
        OwnedLiteral::Identifier(s) => out.append(s.as_str()),
        OwnedLiteral::String(s) => write_quoted(out, s.as_str()),
        OwnedLiteral::Int(v) => write_int(out, *v as i64),
        OwnedLiteral::Long(v) => write_int(out, *v),
        OwnedLiteral::Byte(v) => write_int(out, *v as i64),
        OwnedLiteral::Float(s) => out.append(s.as_str()),
        OwnedLiteral::Double(s) => out.append(s.as_str()),
    }
}

fn write_token(out: &mut String, t: &Token)
    ensures
        final(out)@ == old(out)@ + token_text(t@),
{
    match t {
        Token::Keyword(k) => out.append(k.as_str()),
        Token::Punct(p) => out.append(p.as_str()),
        Token::Comparison(c) => out.append(c.as_str()),
        Token::Assignment(a) => out.append(a.as_str()),
        Token::Operator(o) => out.append(o.as_str()),
        Token::Literal(l) => write_literal(out, l),
    }
}

impl tast::Punct {
    /// The spelling of the punctuation.
    pub fn as_str(&self) -> (r: &'static str)
        ensures
            r@ == tree_punct_text(*self),
    {
        match self {
            tast::Punct::Hash => {
                proof { reveal_strlit("#"); }
                "#"
            },
            tast::Punct::Semi => {
                proof { reveal_strlit(";"); }
                ";"
            },
            tast::Punct::Comma => {
                proof { reveal_strlit(","); }
                ","
            },
            tast::Punct::Colon => {
                proof { reveal_strlit(":"); }
                ":"
            },
        }
    }
}

proof fn lemma_forest_text_push(s: Seq<(TreeV, SourceSpan)>, x: (TreeV, SourceSpan))
    ensures
        forest_text(s.push(x)) == forest_text(s) + tree_text(x.0),
{
    assert(s.push(x).drop_last() =~= s);
}

/// Appends the text of a token tree.
pub fn write_tree<'a>(out: &mut String, t: &tast::Token<'a>)
    ensures
        final(out)@ == old(out)@ + tree_text(t@),
    decreases t,
{
    match t {
        tast::Token::Keyword(k) => out.append(k.as_str()),
        tast::Token::Punct(p) => out.append(p.as_str()),
        tast::Token::Comparison(c) => out.append(c.as_str()),
        tast::Token::Assignment(a) => out.append(a.as_str()),
        tast::Token::Operator(o) => out.append(o.as_str()),
        tast::Token::Literal(l) => write_literal(out, l),
        tast::Token::BraceGroup(b, items) => {
            out.append(Punct::GroupStart(*b).as_str());
            let ghost start = out@;
            proof { lemma_trees_view(items@); }
            let mut i: usize = 0;
            while i < items.len()
                invariant
                    i <= items@.len(),
                    trees_view(items@).len() == items@.len(),
                    forall|j: int| 0 <= j < items@.len() ==> #[trigger] trees_view(items@)[j] == (items@[j].0@, items@[j].1),
                    out@ == start + forest_text(trees_view(items@).take(i as int)),
                    decreases_to!(*t => *items),
                decreases items@.len() - i,
            {
                proof {
                    vstd::std_specs::vec::axiom_vec_index_decreases(*items, i as int);
                }
                let ghost before = out@;
                write_tree(out, &items[i].0);
                proof {
                    let s = trees_view(items@);
                    assert(s.take(i + 1) =~= s.take(i as int).push(s[i as int]));
                    lemma_forest_text_push(s.take(i as int), s[i as int]);
                    assert(out@ =~= start + forest_text(s.take(i + 1)));
                }
                i = i + 1;
            }
            let ghost mid = out@;
            out.append(Punct::GroupEnd(*b).as_str());
            proof {
                assert(trees_view(items@).take(items@.len() as int) =~= trees_view(items@));
                assert(out@ =~= old(out)@ + tree_text(t@));
            }
        },
    }
}

/// Appends the text of an owned token tree.
pub fn write_owned_tree(out: &mut String, t: &OwnedToken)
    ensures
        final(out)@ == old(out)@ + tree_text(t@),
    decreases t,
{
    match t {
        OwnedToken::Keyword(k) => out.append(k.as_str()),
        OwnedToken::Punct(p) => out.append(p.as_str()),
        OwnedToken::Comparison(c) => out.append(c.as_str()),
        OwnedToken::Assignment(a) => out.append(a.as_str()),
        OwnedToken::Operator(o) => out.append(o.as_str()),
        OwnedToken::Literal(l) => write_owned_literal(out, l),
        OwnedToken::BraceGroup(b, items) => {
            out.append(Punct::GroupStart(*b).as_str());
            let ghost start = out@;
            proof { lemma_owned_trees_view(items@); }
            let mut i: usize = 0;
            while i < items.len()
                invariant
                    i <= items@.len(),
                    owned_trees_view(items@).len() == items@.len(),
                    forall|j: int| 0 <= j < items@.len() ==> #[trigger] owned_trees_view(items@)[j] == (items@[j].0@, items@[j].1),
                    out@ == start + forest_text(owned_trees_view(items@).take(i as int)),
                    decreases_to!(*t => *items),
                decreases items@.len() - i,
            {
                proof {
                    vstd::std_specs::vec::axiom_vec_index_decreases(*items, i as int);
                }
                write_owned_tree(out, &items[i].0);
                proof {
                    let s = owned_trees_view(items@);
                    assert(s.take(i + 1) =~= s.take(i as int).push(s[i as int]));
                    lemma_forest_text_push(s.take(i as int), s[i as int]);
                    assert(out@ =~= start + forest_text(s.take(i + 1)));
                }
                i = i + 1;
            }
            out.append(Punct::GroupEnd(*b).as_str());
            proof {
                assert(owned_trees_view(items@).take(items@.len() as int) =~= owned_trees_view(items@));
                assert(out@ =~= old(out)@ + tree_text(t@));
            }
        },
    }
}

proof fn lemma_owned_trees_view(s: Seq<(OwnedToken, SourceSpan)>)
    ensures
        owned_trees_view(s).len() == s.len(),
        forall|i: int| 0 <= i < s.len() ==> #[trigger] owned_trees_view(s)[i] == (s[i].0@, s[i].1),
    decreases s.len(),
{
    if s.len() > 0 {
        lemma_owned_trees_view(s.drop_last());
        assert(owned_trees_view(s) == owned_trees_view(s.drop_last()).push((s.last().0.view(), s.last().1)));
    } else {
        assert(owned_trees_view(s) == Seq::<(TreeV, SourceSpan)>::empty());
    }
}

/// Appends the texts of spanned token trees, separated by single spaces.
pub fn write_spaced<'a>(out: &mut String, items: &Vec<(tast::Token<'a>, SourceSpan)>)
    ensures
        final(out)@ == old(out)@ + spaced_text(trees_view(items@)),
{
    let ghost start = out@;
    proof { lemma_trees_view(items@); }
    let mut i: usize = 0;
    while i < items.len()
        invariant
            i <= items@.len(),
            trees_view(items@).len() == items@.len(),
            forall|j: int| 0 <= j < items@.len() ==> #[trigger] trees_view(items@)[j] == (items@[j].0@, items@[j].1),
            out@ == start + spaced_text(trees_view(items@).take(i as int)),
        decreases items@.len() - i,
    {
        let ghost s = trees_view(items@);
        let ghost before = out@;
        if i > 0 {
            proof { reveal_strlit(" "); }
            out.append(" ");
        }
        write_tree(out, &items[i].0);
        proof {
            assert(s.take(i + 1).drop_last() =~= s.take(i as int));
            assert(s.take(i + 1).last() == s[i as int]);
            if i == 0 {
                assert(s.take(1)[0] == s[0]);
            }
            assert(out@ =~= start + spaced_text(s.take(i + 1)));
        }
        i = i + 1;
    }
    assert(trees_view(items@).take(items@.len() as int) =~= trees_view(items@));
}

/// The texts of spanned flat tokens, separated by single spaces.
pub fn tokens_to_string<'a>(items: &Vec<(Token<'a>, SourceSpan)>) -> (r: String)
    ensures
        r@ == spaced_tokens_text(tokens_view(items@)),
{
    let mut out = String::new();
    let ghost s = tokens_view(items@);
    let mut i: usize = 0;
    while i < items.len()
        invariant
            i <= items@.len(),
            s == tokens_view(items@),
            s.len() == items@.len(),
            out@ == spaced_tokens_text(s.take(i as int)),
        decreases items@.len() - i,
    {
        if i > 0 {
            proof { reveal_strlit(" "); }
            out.append(" ");
        }
        write_token(&mut out, &items[i].0);
        proof {
            assert(s[i as int] == (items@[i as int].0@, items@[i as int].1));
            assert(s.take(i + 1).drop_last() =~= s.take(i as int));
            assert(s.take(i + 1).last() == s[i as int]);
            if i == 0 {
                assert(s.take(1)[0] == s[0]);
                assert(spaced_tokens_text(s.take(0)) =~= Seq::<char>::empty());
            }
            assert(out@ =~= spaced_tokens_text(s.take(i + 1)));
        }
        i = i + 1;
    }
    assert(s.take(items@.len() as int) =~= s);
    out
}

impl<'a> Literal<'a> {
    /// The literal as it is printed (see `literal_text`).
    pub fn to_string(&self) -> (r: String)
        ensures
            r@ == literal_text(self@),
    {
        let mut out = String::new();
        write_literal(&mut out, self);
        assert(out@ =~= literal_text(self@));
        out
    }
}

impl<'a> Token<'a> {
    /// The token as it is printed (see `token_text`).
    pub fn to_string(&self) -> (r: String)
        ensures
            r@ == token_text(self@),
    {
        let mut out = String::new();
        write_token(&mut out, self);
        assert(out@ =~= token_text(self@));
        out
    }
}

impl<'a> tast::Token<'a> {
    /// The token tree as it is printed (see `tree_text`).
    pub fn to_string(&self) -> (r: String)
        ensures
            r@ == tree_text(self@),
    {
        let mut out = String::new();
        write_tree(&mut out, self);
        assert(out@ =~= tree_text(self@));
        out
    }
}

impl OwnedLiteral {
    /// The literal as it is printed (see `literal_text`).
    pub fn to_string(&self) -> (r: String)
        ensures
            r@ == literal_text(self@),
    {
        let mut out = String::new();
        write_owned_literal(&mut out, self);
        assert(out@ =~= literal_text(self@));
        out
    }
}

impl OwnedToken {
    /// The token tree as it is printed (see `tree_text`).
    pub fn to_string(&self) -> (r: String)
        ensures
            r@ == tree_text(self@),
    {
        let mut out = String::new();
        write_owned_tree(&mut out, self);
        assert(out@ =~= tree_text(self@));
        out
    }
}

impl TokenError {
    /// The error's message.
    ///
    /// For a failed integer parse the message is std's text for the inner error, of which
    /// nothing is stated here.
    pub fn to_string(&self) -> (r: String)
        ensures
            match self@ {
                TokenErrorV::Unexpected { ch, .. } => r@ == "unexpected character: "@ + char_debug_text(ch),
                TokenErrorV::DoubleDotFloat => r@ == "float/double cannot have more than one decimal"@,
                TokenErrorV::ParseInt => true,
                TokenErrorV::ParseFloat => r@ == "invalid float literal"@,
            },
    {
        match self {
            TokenError::Unexpected { ch, .. } => {
                let mut out = String::from_str("unexpected character: ");
                let d = char_debug(*ch);
                out.append(d.as_str());
                out
            },
            TokenError::DoubleDotFloat => String::from_str("float/double cannot have more than one decimal"),
            TokenError::ParseInt { inner } => parse_int_error_text(inner),
            TokenError::ParseFloat => String::from_str("invalid float literal"),
        }
    }
}

impl tokenizer::Error {
    /// The error's message.
    pub fn to_string(&self) -> (r: String)
        ensures
            match self {
                tokenizer::Error::Tokenizer { .. } => r@ == "an error occured"@,
                tokenizer::Error::Io(_) => r@ == "IO error occured"@,
            },
    {
        match self {
            tokenizer::Error::Tokenizer { .. } => String::from_str("an error occured"),
            tokenizer::Error::Io(_) => String::from_str("IO error occured"),
        }
    }
}

impl tast::Error {
    /// The message of the error.
    pub open spec fn to_string_spec(&self) -> Seq<char> {
        match *self {
            tast::Error::UnclosedGroup { .. } => "a delimiter group was left unclosed"@,
            tast::Error::UnexpectedGroupClose { .. } => "there is no delimiter group to close"@,
            tast::Error::MismatchedBraceType { expect, got, .. } => "mismatched brace type: expected '"@
                + brace_text(expect) + "', but got: '"@ + brace_text(got),
        }
    }

    /// The error's message.
    pub fn to_string(&self) -> (r: String)
        ensures
            r@ == self.to_string_spec(),
    {
        match self {
            tast::Error::UnclosedGroup { .. } => String::from_str("a delimiter group was left unclosed"),
            tast::Error::UnexpectedGroupClose { .. } => String::from_str("there is no delimiter group to close"),
            tast::Error::MismatchedBraceType { expect, got, .. } => {
                let mut out = String::from_str("mismatched brace type: expected '");
                out.append(expect.as_str());
                out.append("', but got: '");
                out.append(got.as_str());
                out
            },
        }
    }
}

impl FullError {
    /// The message of the inner error.
    pub fn to_string(&self) -> (r: String)
        ensures
            match self {
                FullError::Tokenizer(e) => match e {
                    tokenizer::Error::Tokenizer { .. } => r@ == "an error occured"@,
                    tokenizer::Error::Io(_) => r@ == "IO error occured"@,
                },
                FullError::Tast(e) => r@ == e.to_string_spec(),
            },
    {
        match self {
            FullError::Tokenizer(e) => e.to_string(),
            FullError::Tast(e) => e.to_string(),
        }
    }
}

impl lexer::Error {
    /// The error's message.
    pub fn to_string(&self) -> (r: String)
        ensures
            match self@ {
                ErrorV::UnexpectedToken { token, .. } => r@ == "unexpected token: "@ + tree_text(token),
                ErrorV::Eof { .. } => r@ == "unexpected end of input"@,
                ErrorV::DuplicateMeta { kind, .. } => r@ == "duplicate meta definition for '"@ + kind + "'"@,
                ErrorV::MissingOp { .. } => r@ == "missing operator for binary operation - this is a compiler bug!"@,
                ErrorV::Skip => r@ == "skip this branch in attempting to parse. if you see this, report it! this should never be shown!"@,
            },
    {
        match self {
            lexer::Error::UnexpectedToken { token, .. } => {
                let mut out = String::from_str("unexpected token: ");
                write_owned_tree(&mut out, token);
                out
            },
            lexer::Error::Eof { .. } => String::from_str("unexpected end of input"),
            lexer::Error::DuplicateMeta { kind, .. } => {
                let mut out = String::from_str("duplicate meta definition for '");
                out.append(kind);
                out.append("'");
                out
            },
            lexer::Error::MissingOp { .. } => String::from_str("missing operator for binary operation - this is a compiler bug!"),
            lexer::Error::Skip => String::from_str(
                "skip this branch in attempting to parse. if you see this, report it! this should never be shown!",
            ),
        }
    }
}

/// Lexing the printed text of a keyword, a punctuation mark, a comparison, an assignment or
/// an operator gives back that same token: the first step reads the whole text as that
/// token, and tokenizing the text yields that token alone, spanning all of it.
pub proof fn law_printed_token_lexes_back(x: TokenV)
    requires
        tokenizer::has_fixed_spelling(x),
    ensures
        tokenizer::lex_step(token_text(x), 0, 0) == tokenizer::tok(x, 0, token_text(x).len() as int),
        tokenizer::spec_tokenize(token_text(x)) == Ok::<_, TokenErrorV>(
            seq![(x, tokenizer::span_of(0, token_text(x).len() as int))],
        ),
{
    tokenizer::lemma_spelling_lexes_back(x);
}

} // verus!

//! Owned copies of tokens, for error values that outlive the source text.
use vstd::prelude::*;
use crate::keyword::Keyword;
use crate::span::SourceSpan;
use crate::tast::{lemma_trees_view, lemma_trees_view_push, trees_view, Punct, Token, TreeV};
use crate::token::{Assignment, BraceType, Comparison, Literal, LiteralV, Operator};

verus! {

/// A literal that owns its text.
#[derive(Clone, Debug)]
pub enum OwnedLiteral {
    Identifier(String),
    String(String),
    Int(i32),
    Long(i64),
    /// Minecraft bytes are signed.
    Byte(i8),
    Float(String),
    Double(String),
}

impl View for OwnedLiteral {
    type V = LiteralV;

    open spec fn view(&self) -> LiteralV {
        match self {
            OwnedLiteral::Identifier(s) => LiteralV::Identifier(s@),
            OwnedLiteral::String(s) => LiteralV::String(s@),
            OwnedLiteral::Int(v) => LiteralV::Int(*v),
            OwnedLiteral::Long(v) => LiteralV::Long(*v),
            OwnedLiteral::Byte(v) => LiteralV::Byte(*v),
            OwnedLiteral::Float(s) => LiteralV::Float(s@),
            OwnedLiteral::Double(s) => LiteralV::Double(s@),
        }
    }
}

impl OwnedLiteral {
    /// Copies the literal's text.
    pub fn from_literal<'a>(value: Literal<'a>) -> (r: OwnedLiteral)
        ensures
            r@ == value@,
    {
        match value {
            Literal::Identifier(it) => OwnedLiteral::Identifier(it.to_string()),
            Literal::String(it) => OwnedLiteral::String(it.to_string()),
            Literal::Int(it) => OwnedLiteral::Int(it),
            Literal::Long(it) => OwnedLiteral::Long(it),
            Literal::Byte(it) => OwnedLiteral::Byte(it),
            Literal::Float(it) => OwnedLiteral::Float(it.to_string()),
            Literal::Double(it) => OwnedLiteral::Double(it.to_string()),
        }
    }
}

/// A token tree that owns its text.
#[derive(Debug)]
pub enum OwnedToken {
    Keyword(Keyword),
    Punct(Punct),
    Comparison(Comparison),
    Assignment(Assignment),
    Operator(Operator),
    Literal(OwnedLiteral),
    BraceGroup(BraceType, Vec<(OwnedToken, SourceSpan)>),
}

/// The mathematical value of a list of spanned owned tokens.
pub open spec fn owned_trees_view(s: Seq<(OwnedToken, SourceSpan)>) -> Seq<(TreeV, SourceSpan)>
    decreases s,
{
    if s.len() == 0 {
        Seq::empty()
    } else {
        owned_trees_view(s.drop_last()).push((s.last().0.view(), s.last().1))
    }
}

impl View for OwnedToken {
    type V = TreeV;

    open spec fn view(&self) -> TreeV
        decreases self,
    {
        match self {
            OwnedToken::Keyword(k) => TreeV::Keyword(*k),
            OwnedToken::Punct(p) => TreeV::Punct(*p),
            OwnedToken::Comparison(c) => TreeV::Comparison(*c),
            OwnedToken::Assignment(a) => TreeV::Assignment(*a),
            OwnedToken::Operator(o) => TreeV::Operator(*o),
            OwnedToken::Literal(l) => TreeV::Literal(l@),
            OwnedToken::BraceGroup(b, v) => TreeV::Group(*b, owned_trees_view(v@)),
        }
    }
}

/// A group with its items dropped; any other token unchanged.
pub open spec fn shallow(x: TreeV) -> TreeV {
    match x {
        TreeV::Group(b, _) => TreeV::Group(b, Seq::empty()),
        _ => x,
    }
}

/// The owned copy of a token: with `allow_recurse` a group keeps its items, each of them
/// with its own items dropped; without it a group keeps none.
pub open spec fn conv_spec(x: TreeV, allow_recurse: bool) -> TreeV {
    match x {
        TreeV::Group(b, items) => if allow_recurse {
            TreeV::Group(b, items.map_values(|p: (TreeV, SourceSpan)| (shallow(p.0), p.1)))
        } else {
            TreeV::Group(b, Seq::empty())
        },
        _ => x,
    }
}

pub proof fn lemma_owned_trees_view_push(s: Seq<(OwnedToken, SourceSpan)>, x: (OwnedToken, SourceSpan))
    ensures
        owned_trees_view(s.push(x)) == owned_trees_view(s).push((x.0@, x.1)),
{
    assert(s.push(x).drop_last() =~= s);
}

impl<'a> Token<'a> {
    /// Makes an owned copy of the token (see `conv_spec`).
    pub fn conv(&self, allow_recurse: bool) -> (r: OwnedToken)
        ensures
            r@ == conv_spec(self@, allow_recurse),
        decreases (if allow_recurse { 1int } else { 0int }),
    {
        match self {
            Token::Keyword(it) => OwnedToken::Keyword(*it),
            Token::Punct(it) => OwnedToken::Punct(*it),
            Token::Comparison(it) => OwnedToken::Comparison(*it),
            Token::Assignment(it) => OwnedToken::Assignment(*it),
            Token::Operator(it) => OwnedToken::Operator(*it),
            Token::Literal(it) => OwnedToken::Literal(OwnedLiteral::from_literal(*it)),
            Token::BraceGroup(brace_type, items) => {
                let mut out: Vec<(OwnedToken, SourceSpan)> = Vec::new();
                if allow_recurse {
                    let ghost src = trees_view(items@);
                    proof { lemma_trees_view(items@); }
                    let mut i: usize = 0;
                    while i < items.len()
                        invariant
                            allow_recurse,
                            i <= items@.len(),
                            src == trees_view(items@),
                            src.len() == items@.len(),
                            forall|j: int| 0 <= j < items@.len() ==> #[trigger] src[j] == (items@[j].0@, items@[j].1),
                            owned_trees_view(out@) == src.take(i as int).map_values(|p: (TreeV, SourceSpan)| (shallow(p.0), p.1)),
                        decreases items@.len() - i,
                    {
                        let item = items[i].0.conv(false);
                        let ghost before = out@;
                        out.push((item, items[i].1));
                        proof {
                            lemma_owned_trees_view_push(before, (item, items@[i as int].1));
                            assert(src.take(i + 1) =~= src.take(i as int).push(src[i as int]));
                            assert(src.take(i + 1).map_values(|p: (TreeV, SourceSpan)| (shallow(p.0), p.1))
                                =~= src.take(i as int).map_values(|p: (TreeV, SourceSpan)| (shallow(p.0), p.1)).push((shallow(src[i as int].0), src[i as int].1)));
                        }
                        i = i + 1;
                    }
                    assert(src.take(items@.len() as int) =~= src);
                } else {
                    assert(owned_trees_view(out@) == Seq::<(TreeV, SourceSpan)>::empty());
                }
                OwnedToken::BraceGroup(*brace_type, out)
            },
        }
    }

    /// The owned copy of a token, keeping a group's items one level deep.
    pub fn to_owned_token(&self) -> (r: OwnedToken)
        ensures
            r@ == conv_spec(self@, true),
    {
        self.conv(true)
    }
}

} // verus!

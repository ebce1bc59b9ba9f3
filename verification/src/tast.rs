//! Token trees: delimiter groups gathered into nested tokens.
use vstd::prelude::*;
use crate::keyword::Keyword;
use crate::span::SourceSpan;
use crate::span::spec_join;
use crate::text::str_eq;
use crate::token::{self, Assignment, BraceType, Comparison, Literal, LiteralV, Operator, TokenV};
use crate::tokenizer::tokens_view;

verus! {

/// Punctuation other than delimiters.
#[derive(Clone, Copy, Debug, PartialEq, Eq, PartialOrd, Ord, Hash, Structural)]
pub enum Punct {
    /// `#`
    Hash,
    /// `;`
    Semi,
    /// `,`
    Comma,
    /// `:`
    Colon,
}

/// A token of a token tree: a delimiter group holds the tokens between its delimiters.
#[derive(Debug)]
pub enum Token<'a> {
    Keyword(Keyword),
    Punct(Punct),
    Comparison(Comparison),
    Assignment(Assignment),
    Operator(Operator),
    Literal(Literal<'a>),
    BraceGroup(BraceType, Vec<(Token<'a>, SourceSpan)>),
}

/// The mathematical value of a token tree.
pub enum TreeV {
    Keyword(Keyword),
    Punct(Punct),
    Comparison(Comparison),
    Assignment(Assignment),
    Operator(Operator),
    Literal(LiteralV),
    Group(BraceType, Seq<(TreeV, SourceSpan)>),
}

/// The mathematical value of a list of spanned token trees.
pub open spec fn trees_view<'a>(s: Seq<(Token<'a>, SourceSpan)>) -> Seq<(TreeV, SourceSpan)>
    decreases s,
{
    if s.len() == 0 {
        Seq::empty()
    } else {
        trees_view(s.drop_last()).push((s.last().0.view(), s.last().1))
    }
}

impl<'a> View for Token<'a> {
    type V = TreeV;

    open spec fn view(&self) -> TreeV
        decreases self,
    {
        match self {
            Token::Keyword(k) => TreeV::Keyword(*k),
            Token::Punct(p) => TreeV::Punct(*p),
            Token::Comparison(c) => TreeV::Comparison(*c),
            Token::Assignment(a) => TreeV::Assignment(*a),
            Token::Operator(o) => TreeV::Operator(*o),
            Token::Literal(l) => TreeV::Literal(l@),
            Token::BraceGroup(b, v) => TreeV::Group(*b, trees_view(v@)),
        }
    }
}


pub proof fn lemma_trees_view<'a>(s: Seq<(Token<'a>, SourceSpan)>)
    ensures
        trees_view(s).len() == s.len(),
        forall|i: int| 0 <= i < s.len() ==> #[trigger] trees_view(s)[i] == (s[i].0@, s[i].1),
    decreases s.len(),
{
    if s.len() > 0 {
        lemma_trees_view(s.drop_last());
        assert(trees_view(s) == trees_view(s.drop_last()).push((s.last().0.view(), s.last().1)));
    } else {
        assert(trees_view(s) == Seq::<(TreeV, SourceSpan)>::empty());
    }
}

pub proof fn lemma_trees_view_push<'a>(s: Seq<(Token<'a>, SourceSpan)>, x: (Token<'a>, SourceSpan))
    ensures
        trees_view(s.push(x)) == trees_view(s).push((x.0@, x.1)),
{
    assert(s.push(x).drop_last() =~= s);
}

/// Why building token trees failed.
#[derive(Clone, Copy, Debug, PartialEq, Eq, Structural)]
pub enum Error {
    /// A delimiter group was left unclosed.
    UnclosedGroup { span: SourceSpan },
    /// A closing delimiter with no group to close.
    UnexpectedGroupClose { span: SourceSpan },
    /// A closing delimiter of another kind than the open group's.
    MismatchedBraceType { expect: BraceType, got: BraceType, span: SourceSpan },
}

/// The state of the tree builder: the items of every open group (the outermost level
/// first), the kinds of the open groups and the spans of their opening delimiters.
pub struct TastState {
    pub stack: Seq<Seq<(TreeV, SourceSpan)>>,
    pub braces: Seq<BraceType>,
    pub opens: Seq<SourceSpan>,
}

pub open spec fn tast_init() -> TastState {
    TastState { stack: seq![Seq::empty()], braces: Seq::empty(), opens: Seq::empty() }
}

/// Appends an item to the innermost open group.
pub open spec fn push_top(stack: Seq<Seq<(TreeV, SourceSpan)>>, item: (TreeV, SourceSpan)) -> Seq<Seq<(TreeV, SourceSpan)>> {
    stack.update(stack.len() - 1, stack.last().push(item))
}

/// A flat token other than a delimiter, as a tree token.
pub open spec fn leaf_of(x: TokenV) -> TreeV {
    match x {
        TokenV::Keyword(k) => TreeV::Keyword(k),
        TokenV::Punct(token::Punct::Hash) => TreeV::Punct(Punct::Hash),
        TokenV::Punct(token::Punct::Semi) => TreeV::Punct(Punct::Semi),
        TokenV::Punct(token::Punct::Comma) => TreeV::Punct(Punct::Comma),
        TokenV::Punct(token::Punct::Colon) => TreeV::Punct(Punct::Colon),
        TokenV::Comparison(c) => TreeV::Comparison(c),
        TokenV::Assignment(a) => TreeV::Assignment(a),
        TokenV::Operator(o) => TreeV::Operator(o),
        TokenV::Literal(l) => TreeV::Literal(l),
        // Delimiters never become leaves.
        TokenV::Punct(_) => TreeV::Punct(Punct::Hash),
    }
}

/// The span of a closed group: from its first item's start to its last item's end, or the
/// closing delimiter's span when it is empty.
pub open spec fn group_span(items: Seq<(TreeV, SourceSpan)>, close: SourceSpan) -> SourceSpan {
    if items.len() == 0 {
        close
    } else {
        spec_join(items[0].1, items.last().1)
    }
}

/// One token fed to the tree builder.
pub open spec fn tast_step(st: TastState, x: (TokenV, SourceSpan)) -> Result<TastState, Error> {
    match x.0 {
        TokenV::Punct(token::Punct::GroupStart(b)) => Ok(TastState {
            stack: st.stack.push(Seq::empty()),
            braces: st.braces.push(b),
            opens: st.opens.push(x.1),
        }),
        TokenV::Punct(token::Punct::GroupEnd(b)) => {
            if st.braces.len() == 0 {
                Err(Error::UnexpectedGroupClose { span: x.1 })
            } else if st.braces.last() != b {
                Err(Error::MismatchedBraceType { expect: st.braces.last(), got: b, span: x.1 })
            } else {
                let items = st.stack.last();
                Ok(TastState {
                    stack: push_top(st.stack.drop_last(), (TreeV::Group(b, items), group_span(items, x.1))),
                    braces: st.braces.drop_last(),
                    opens: st.opens.drop_last(),
                })
            }
        },
        _ => Ok(TastState { stack: push_top(st.stack, (leaf_of(x.0), x.1)), ..st }),
    }
}

/// The builder's state after the tokens `ts`, or its first error.
pub open spec fn tast_run(ts: Seq<(TokenV, SourceSpan)>) -> Result<TastState, Error>
    decreases ts.len(),
{
    if ts.len() == 0 {
        Ok(tast_init())
    } else {
        match tast_run(ts.drop_last()) {
            Ok(st) => tast_step(st, ts.last()),
            Err(e) => Err(e),
        }
    }
}

/// The token trees built from `ts`, or the first error. A group still open at the end is an
/// error at the opening delimiter of the innermost such group.
pub open spec fn spec_tast(ts: Seq<(TokenV, SourceSpan)>) -> Result<Seq<(TreeV, SourceSpan)>, Error> {
    match tast_run(ts) {
        Ok(st) => if st.braces.len() > 0 {
            Err(Error::UnclosedGroup { span: st.opens.last() })
        } else {
            Ok(st.stack.last())
        },
        Err(e) => Err(e),
    }
}

pub open spec fn tast_state_ok(st: TastState) -> bool {
    &&& st.stack.len() == st.braces.len() + 1
    &&& st.opens.len() == st.braces.len()
}

pub proof fn lemma_tast_run_ok(ts: Seq<(TokenV, SourceSpan)>)
    ensures
        tast_run(ts) matches Ok(st) ==> tast_state_ok(st),
    decreases ts.len(),
{
    if ts.len() > 0 {
        lemma_tast_run_ok(ts.drop_last());
    }
}

/// A flat token other than a delimiter, as a tree token.
fn leaf<'a>(x: token::Token<'a>) -> (r: Token<'a>)
    ensures
        r@ == leaf_of(x@),
{
    match x {
        token::Token::Keyword(k) => Token::Keyword(k),
        token::Token::Punct(token::Punct::Hash) => Token::Punct(Punct::Hash),
        token::Token::Punct(token::Punct::Semi) => Token::Punct(Punct::Semi),
        token::Token::Punct(token::Punct::Comma) => Token::Punct(Punct::Comma),
        token::Token::Punct(token::Punct::Colon) => Token::Punct(Punct::Colon),
        token::Token::Comparison(c) => Token::Comparison(c),
        token::Token::Assignment(a) => Token::Assignment(a),
        token::Token::Operator(o) => Token::Operator(o),
        token::Token::Literal(l) => Token::Literal(l),
        token::Token::Punct(_) => Token::Punct(Punct::Hash),
    }
}

pub open spec fn stack_view<'a>(stack: Seq<Vec<(Token<'a>, SourceSpan)>>) -> Seq<Seq<(TreeV, SourceSpan)>> {
    stack.map_values(|v: Vec<(Token<'a>, SourceSpan)>| trees_view(v@))
}

/// Appends `item` to the innermost open group.
fn push_item<'a>(stack: &mut Vec<Vec<(Token<'a>, SourceSpan)>>, item: (Token<'a>, SourceSpan))
    requires
        old(stack)@.len() > 0,
    ensures
        stack_view(final(stack)@) == push_top(stack_view(old(stack)@), (item.0@, item.1)),
        final(stack)@.len() == old(stack)@.len(),
{
    let mut top = stack.pop().unwrap();
    let ghost old_top = top@;
    top.push(item);
    proof { lemma_trees_view_push(old_top, item); }
    stack.push(top);
    assert(stack_view(stack@) =~= push_top(stack_view(old(stack)@), (item.0@, item.1)));
}

/// An error on a prefix of the tokens is the error of the whole.
pub proof fn lemma_tast_run_err_prefix(ts: Seq<(TokenV, SourceSpan)>, k: int)
    requires
        0 <= k <= ts.len(),
        tast_run(ts.take(k)) is Err,
    ensures
        tast_run(ts) == tast_run(ts.take(k)),
    decreases ts.len(),
{
    if k < ts.len() {
        assert(ts.drop_last().take(k) =~= ts.take(k));
        lemma_tast_run_err_prefix(ts.drop_last(), k);
    } else {
        assert(ts.take(k) =~= ts);
    }
}

/// A tree token other than a group, back as a flat token.
pub open spec fn unleaf(x: TreeV) -> TokenV {
    match x {
        TreeV::Keyword(k) => TokenV::Keyword(k),
        TreeV::Punct(Punct::Hash) => TokenV::Punct(token::Punct::Hash),
        TreeV::Punct(Punct::Semi) => TokenV::Punct(token::Punct::Semi),
        TreeV::Punct(Punct::Comma) => TokenV::Punct(token::Punct::Comma),
        TreeV::Punct(Punct::Colon) => TokenV::Punct(token::Punct::Colon),
        TreeV::Comparison(c) => TokenV::Comparison(c),
        TreeV::Assignment(a) => TokenV::Assignment(a),
        TreeV::Operator(o) => TokenV::Operator(o),
        TreeV::Literal(l) => TokenV::Literal(l),
        TreeV::Group(b, _) => TokenV::Punct(token::Punct::GroupStart(b)),
    }
}

/// The flat tokens of a tree: a group gives its delimiters around its items.
pub open spec fn flatten_one(x: TreeV) -> Seq<TokenV>
    decreases x,
{
    match x {
        TreeV::Group(b, items) => seq![TokenV::Punct(token::Punct::GroupStart(b))] + flatten(items)
            + seq![TokenV::Punct(token::Punct::GroupEnd(b))],
        _ => seq![unleaf(x)],
    }
}

/// The flat tokens of a list of trees, in order.
pub open spec fn flatten(s: Seq<(TreeV, SourceSpan)>) -> Seq<TokenV>
    decreases s,
{
    if s.len() == 0 {
        Seq::empty()
    } else {
        flatten(s.drop_last()) + flatten_one(s.last().0)
    }
}

/// The flat tokens that a builder state stands for: every open level's items, each level
/// after the first preceded by its opening delimiter.
pub open spec fn render(stack: Seq<Seq<(TreeV, SourceSpan)>>, braces: Seq<BraceType>) -> Seq<TokenV>
    decreases stack.len(),
{
    if stack.len() <= 1 || braces.len() == 0 {
        if stack.len() == 0 { Seq::empty() } else { flatten(stack[0]) }
    } else {
        render(stack.drop_last(), braces.drop_last()) + seq![TokenV::Punct(token::Punct::GroupStart(braces.last()))]
            + flatten(stack.last())
    }
}

pub open spec fn kinds(ts: Seq<(TokenV, SourceSpan)>) -> Seq<TokenV> {
    ts.map_values(|x: (TokenV, SourceSpan)| x.0)
}

proof fn lemma_flatten_push(s: Seq<(TreeV, SourceSpan)>, y: (TreeV, SourceSpan))
    ensures
        flatten(s.push(y)) == flatten(s) + flatten_one(y.0),
{
    assert(s.push(y).drop_last() =~= s);
    assert(flatten(s.push(y)) == flatten(s.push(y).drop_last()) + flatten_one(s.push(y).last().0));
}

/// The builder's state always stands for the tokens fed so far.
#[verifier::spinoff_prover]
proof fn lemma_tast_run_render(ts: Seq<(TokenV, SourceSpan)>)
    ensures
        tast_run(ts) matches Ok(st) ==> tast_state_ok(st) && render(st.stack, st.braces) == kinds(ts),
    decreases ts.len(),
{
    lemma_tast_run_ok(ts);
    if ts.len() == 0 {
        assert(flatten(Seq::<(TreeV, SourceSpan)>::empty()) == Seq::<TokenV>::empty());
        assert(kinds(ts) =~= Seq::<TokenV>::empty());
    } else {
        let pre = ts.drop_last();
        let x = ts.last();
        lemma_tast_run_render(pre);
        assert(kinds(ts) =~= kinds(pre).push(x.0));
        if let Ok(st) = tast_run(pre) {
            let n = st.stack.len();
            match x.0 {
                TokenV::Punct(token::Punct::GroupStart(b)) => {
                    let st2 = TastState { stack: st.stack.push(Seq::empty()), braces: st.braces.push(b), opens: st.opens.push(x.1) };
                    assert(st2.stack.drop_last() =~= st.stack);
                    assert(st2.braces.drop_last() =~= st.braces);
                    assert(flatten(Seq::<(TreeV, SourceSpan)>::empty()) == Seq::<TokenV>::empty());
                    assert(render(st2.stack, st2.braces) =~= render(st.stack, st.braces).push(x.0));
                },
                TokenV::Punct(token::Punct::GroupEnd(b)) => {
                    if st.braces.len() > 0 && st.braces.last() == b {
                        let items = st.stack.last();
                        let g = (TreeV::Group(b, items), group_span(items, x.1));
                        let rest = st.stack.drop_last();
                        let st2 = TastState { stack: push_top(rest, g), braces: st.braces.drop_last(), opens: st.opens.drop_last() };
                        lemma_flatten_push(rest.last(), g);
                        assert(flatten_one(g.0) == seq![TokenV::Punct(token::Punct::GroupStart(b))] + flatten(items)
                            + seq![TokenV::Punct(token::Punct::GroupEnd(b))]);
                        if n == 2 {
                            assert(render(rest, st.braces.drop_last()) == flatten(rest[0]));
                            assert(render(st.stack, st.braces) == flatten(rest[0]) + seq![TokenV::Punct(token::Punct::GroupStart(b))] + flatten(items));
                            assert(render(st2.stack, st2.braces) == flatten(st2.stack[0]));
                            assert(render(st2.stack, st2.braces) =~= render(st.stack, st.braces).push(x.0));
                        } else {
                            assert(st2.stack.drop_last() =~= rest.drop_last());
                            assert(st2.braces.drop_last() =~= st.braces.drop_last().drop_last());
                            assert(st2.stack.last() == rest.last().push(g));
                            assert(render(rest, st.braces.drop_last()) == render(rest.drop_last(), st.braces.drop_last().drop_last())
                                + seq![TokenV::Punct(token::Punct::GroupStart(st.braces.drop_last().last()))] + flatten(rest.last()));
                            assert(render(st2.stack, st2.braces) =~= render(st.stack, st.braces).push(x.0));
                        }
                    }
                },
                _ => {
                    let y = (leaf_of(x.0), x.1);
                    let st2 = TastState { stack: push_top(st.stack, y), ..st };
                    lemma_flatten_push(st.stack.last(), y);
                    assert(flatten_one(y.0) == seq![x.0]);
                    if n == 1 {
                        assert(render(st2.stack, st2.braces) =~= render(st.stack, st.braces).push(x.0));
                    } else {
                        assert(st2.stack.drop_last() =~= st.stack.drop_last());
                        assert(render(st2.stack, st2.braces) =~= render(st.stack, st.braces).push(x.0));
                    }
                },
            }
        }
    }
}

/// A flat token with its span, the span left out for a delimiter.
pub open spec fn mark(x: (TokenV, SourceSpan)) -> (TokenV, Option<SourceSpan>) {
    match x.0 {
        TokenV::Punct(token::Punct::GroupStart(_)) | TokenV::Punct(token::Punct::GroupEnd(_)) => (x.0, None),
        _ => (x.0, Some(x.1)),
    }
}

pub open spec fn marks(ts: Seq<(TokenV, SourceSpan)>) -> Seq<(TokenV, Option<SourceSpan>)> {
    ts.map_values(|x: (TokenV, SourceSpan)| mark(x))
}

/// The flat tokens of a tree with the spans of its leaves: a group gives its delimiters
/// (without spans) around its items.
pub open spec fn flat_sp_one(x: (TreeV, SourceSpan)) -> Seq<(TokenV, Option<SourceSpan>)>
    decreases x,
{
    match x.0 {
        TreeV::Group(b, items) => seq![(TokenV::Punct(token::Punct::GroupStart(b)), None::<SourceSpan>)] + flat_sp(items)
            + seq![(TokenV::Punct(token::Punct::GroupEnd(b)), None::<SourceSpan>)],
        _ => seq![(unleaf(x.0), Some(x.1))],
    }
}

/// The flat tokens of a list of trees with the spans of their leaves, in order.
pub open spec fn flat_sp(s: Seq<(TreeV, SourceSpan)>) -> Seq<(TokenV, Option<SourceSpan>)>
    decreases s,
{
    if s.len() == 0 {
        Seq::empty()
    } else {
        flat_sp(s.drop_last()) + flat_sp_one(s.last())
    }
}

pub open spec fn render_sp(stack: Seq<Seq<(TreeV, SourceSpan)>>, braces: Seq<BraceType>) -> Seq<(TokenV, Option<SourceSpan>)>
    decreases stack.len(),
{
    if stack.len() <= 1 || braces.len() == 0 {
        if stack.len() == 0 { Seq::empty() } else { flat_sp(stack[0]) }
    } else {
        render_sp(stack.drop_last(), braces.drop_last()) + seq![(TokenV::Punct(token::Punct::GroupStart(braces.last())), None::<SourceSpan>)]
            + flat_sp(stack.last())
    }
}

proof fn lemma_flat_sp_push(s: Seq<(TreeV, SourceSpan)>, y: (TreeV, SourceSpan))
    ensures
        flat_sp(s.push(y)) == flat_sp(s) + flat_sp_one(y),
{
    assert(s.push(y).drop_last() =~= s);
    assert(flat_sp(s.push(y)) == flat_sp(s.push(y).drop_last()) + flat_sp_one(s.push(y).last()));
}

/// The builder's state always stands for the tokens fed so far, spans of leaves included.
#[verifier::spinoff_prover]
proof fn lemma_tast_run_render_spanned(ts: Seq<(TokenV, SourceSpan)>)
    ensures
        tast_run(ts) matches Ok(st) ==> tast_state_ok(st) && render_sp(st.stack, st.braces) == marks(ts),
    decreases ts.len(),
{
    lemma_tast_run_ok(ts);
    if ts.len() == 0 {
        assert(flat_sp(Seq::<(TreeV, SourceSpan)>::empty()) == Seq::<(TokenV, Option<SourceSpan>)>::empty());
        assert(marks(ts) =~= Seq::<(TokenV, Option<SourceSpan>)>::empty());
    } else {
        let pre = ts.drop_last();
        let x = ts.last();
        lemma_tast_run_render_spanned(pre);
        assert(marks(ts) =~= marks(pre).push(mark(x)));
        if let Ok(st) = tast_run(pre) {
            let n = st.stack.len();
            match x.0 {
                TokenV::Punct(token::Punct::GroupStart(b)) => {
                    let st2 = TastState { stack: st.stack.push(Seq::empty()), braces: st.braces.push(b), opens: st.opens.push(x.1) };
                    assert(st2.stack.drop_last() =~= st.stack);
                    assert(st2.braces.drop_last() =~= st.braces);
                    assert(flat_sp(Seq::<(TreeV, SourceSpan)>::empty()) == Seq::<(TokenV, Option<SourceSpan>)>::empty());
                    assert(render_sp(st2.stack, st2.braces) =~= render_sp(st.stack, st.braces).push(mark(x)));
                },
                TokenV::Punct(token::Punct::GroupEnd(b)) => {
                    if st.braces.len() > 0 && st.braces.last() == b {
                        let items = st.stack.last();
                        let g = (TreeV::Group(b, items), group_span(items, x.1));
                        let rest = st.stack.drop_last();
                        let st2 = TastState { stack: push_top(rest, g), braces: st.braces.drop_last(), opens: st.opens.drop_last() };
                        lemma_flat_sp_push(rest.last(), g);
                        assert(flat_sp_one(g) == seq![(TokenV::Punct(token::Punct::GroupStart(b)), None::<SourceSpan>)] + flat_sp(items)
                            + seq![(TokenV::Punct(token::Punct::GroupEnd(b)), None::<SourceSpan>)]);
                        if n == 2 {
                            assert(render_sp(rest, st.braces.drop_last()) == flat_sp(rest[0]));
                            assert(render_sp(st.stack, st.braces) == flat_sp(rest[0]) + seq![(TokenV::Punct(token::Punct::GroupStart(b)), None::<SourceSpan>)] + flat_sp(items));
                            assert(render_sp(st2.stack, st2.braces) == flat_sp(st2.stack[0]));
                            assert(render_sp(st2.stack, st2.braces) =~= render_sp(st.stack, st.braces).push(mark(x)));
                        } else {
                            assert(st2.stack.drop_last() =~= rest.drop_last());
                            assert(st2.braces.drop_last() =~= st.braces.drop_last().drop_last());
                            assert(st2.stack.last() == rest.last().push(g));
                            assert(render_sp(rest, st.braces.drop_last()) == render_sp(rest.drop_last(), st.braces.drop_last().drop_last())
                                + seq![(TokenV::Punct(token::Punct::GroupStart(st.braces.drop_last().last())), None::<SourceSpan>)] + flat_sp(rest.last()));
                            assert(render_sp(st2.stack, st2.braces) =~= render_sp(st.stack, st.braces).push(mark(x)));
                        }
                    }
                },
                _ => {
                    let y = (leaf_of(x.0), x.1);
                    let st2 = TastState { stack: push_top(st.stack, y), ..st };
                    lemma_flat_sp_push(st.stack.last(), y);
                    assert(flat_sp_one(y) == seq![mark(x)]);
                    if n == 1 {
                        assert(render_sp(st2.stack, st2.braces) =~= render_sp(st.stack, st.braces).push(mark(x)));
                    } else {
                        assert(st2.stack.drop_last() =~= st.stack.drop_last());
                        assert(render_sp(st2.stack, st2.braces) =~= render_sp(st.stack, st.braces).push(mark(x)));
                    }
                },
            }
        }
    }
}

/// The kinds of the delimiter groups still open after `ts`, innermost last, or `None` when
/// a closing delimiter has no open group or closes one of another kind.
pub open spec fn open_groups(ts: Seq<(TokenV, SourceSpan)>) -> Option<Seq<BraceType>>
    decreases ts.len(),
{
    if ts.len() == 0 {
        Some(Seq::empty())
    } else {
        match open_groups(ts.drop_last()) {
            None => None,
            Some(open) => match ts.last().0 {
                TokenV::Punct(token::Punct::GroupStart(b)) => Some(open.push(b)),
                TokenV::Punct(token::Punct::GroupEnd(b)) => if open.len() > 0 && open.last() == b {
                    Some(open.drop_last())
                } else {
                    None
                },
                _ => Some(open),
            },
        }
    }
}

/// Whether the delimiters of `ts` are properly nested: every closing delimiter closes the
/// innermost open group, of its own kind, and no group is left open.
pub open spec fn balanced(ts: Seq<(TokenV, SourceSpan)>) -> bool {
    open_groups(ts) == Some(Seq::<BraceType>::empty())
}

proof fn lemma_open_groups(ts: Seq<(TokenV, SourceSpan)>)
    ensures
        open_groups(ts) matches Some(open) ==> tast_run(ts) matches Ok(st) && st.braces == open,
        tast_run(ts) matches Ok(st) ==> open_groups(ts) == Some(st.braces),
    decreases ts.len(),
{
    if ts.len() > 0 {
        lemma_open_groups(ts.drop_last());
    }
}

/// Token trees are built exactly when the delimiters are properly nested; then flattening
/// them gives back the tokens in order, each token other than a delimiter with its own span.
pub proof fn law_balanced_builds_trees(ts: Seq<(TokenV, SourceSpan)>)
    ensures
        spec_tast(ts) is Ok <==> balanced(ts),
        balanced(ts) ==> (spec_tast(ts) matches Ok(trees) && flat_sp(trees) == marks(ts)),
{
    lemma_open_groups(ts);
    lemma_tast_run_render_spanned(ts);
    if tast_run(ts) is Ok {
        let st = tast_run(ts)->Ok_0;
        if st.braces.len() == 0 {
            assert(st.braces =~= Seq::<BraceType>::empty());
        }
    }
}

/// Building token trees loses nothing: whenever it succeeds, flattening the trees gives back
/// the input tokens in order, each token other than a delimiter with its own span.
pub proof fn law_tast_keeps_tokens_and_spans(ts: Seq<(TokenV, SourceSpan)>)
    ensures
        spec_tast(ts) matches Ok(trees) ==> flat_sp(trees) == marks(ts),
{
    lemma_tast_run_render_spanned(ts);
}

/// Building token trees loses no token: whenever it succeeds, flattening the trees (each
/// group giving back its opening delimiter, its items and its closing delimiter) yields the
/// input tokens in order.
pub proof fn law_tast_round_trip(ts: Seq<(TokenV, SourceSpan)>)
    ensures
        spec_tast(ts) matches Ok(trees) ==> flatten(trees) == kinds(ts),
{
    lemma_tast_run_render(ts);
}

/// Whether error `e` is one that the delimiter at place `i` of `ts` causes: a closing
/// delimiter with no group or the wrong group to close, or an opening delimiter whose group
/// is never closed.
pub open spec fn fails_at(ts: Seq<(TokenV, SourceSpan)>, i: int, e: Error) -> bool {
    &&& 0 <= i < ts.len()
    &&& ts[i].0 is Punct
    &&& match e {
        Error::UnexpectedGroupClose { span } => ts[i].0->Punct_0 is GroupEnd && span == ts[i].1,
        Error::MismatchedBraceType { span, .. } => ts[i].0->Punct_0 is GroupEnd && span == ts[i].1,
        Error::UnclosedGroup { span } => ts[i].0->Punct_0 is GroupStart && span == ts[i].1,
    }
}

/// Whether some opening delimiter of `ts` has span `sp`.
pub open spec fn opened_at(ts: Seq<(TokenV, SourceSpan)>, sp: SourceSpan) -> bool {
    exists|i: int| #[trigger] fails_at(ts, i, Error::UnclosedGroup { span: sp })
}

/// Every open group was opened by an opening delimiter of the input, and every error of the
/// builder's run comes from a closing delimiter.
proof fn lemma_tast_run_sources(ts: Seq<(TokenV, SourceSpan)>)
    ensures
        tast_run(ts) matches Ok(st) ==> tast_state_ok(st) && forall|k: int| 0 <= k < st.opens.len()
            ==> opened_at(ts, #[trigger] st.opens[k]),
        tast_run(ts) matches Err(e) ==> !(e is UnclosedGroup) && exists|i: int| #[trigger] fails_at(ts, i, e),
    decreases ts.len(),
{
    lemma_tast_run_ok(ts);
    if ts.len() > 0 {
        let pre = ts.drop_last();
        let last = ts.len() - 1;
        lemma_tast_run_sources(pre);
        assert(ts[last] == ts.last());
        assert forall|i: int, e: Error| #[trigger] fails_at(pre, i, e) implies fails_at(ts, i, e) by {
            assert(ts[i] == pre[i]);
        }
        match tast_run(pre) {
            Err(e) => {
                let i = choose|i: int| #[trigger] fails_at(pre, i, e);
                assert(fails_at(ts, i, e));
            },
            Ok(st) => {
                assert forall|sp: SourceSpan| opened_at(pre, sp) implies opened_at(ts, sp) by {
                    let i = choose|i: int| #[trigger] fails_at(pre, i, Error::UnclosedGroup { span: sp });
                    assert(fails_at(ts, i, Error::UnclosedGroup { span: sp }));
                }
                match tast_run(ts) {
                    Err(e) => {
                        assert(fails_at(ts, last, e));
                    },
                    Ok(st2) => {
                        match ts.last().0 {
                            TokenV::Punct(token::Punct::GroupStart(_)) => {
                                assert(st2.opens == st.opens.push(ts.last().1));
                                assert(fails_at(ts, last, Error::UnclosedGroup { span: ts.last().1 }));
                            },
                            TokenV::Punct(token::Punct::GroupEnd(_)) => {
                                assert(st2.opens == st.opens.drop_last());
                            },
                            _ => {
                                assert(st2.opens == st.opens);
                            },
                        }
                        assert forall|k: int| 0 <= k < st2.opens.len() implies opened_at(ts, #[trigger] st2.opens[k]) by {
                            if k < st.opens.len() && st2.opens[k] == st.opens[k] {
                                assert(opened_at(pre, st.opens[k]));
                            }
                        }
                    },
                }
            },
        }
    }
}

/// The tree builder fails only at a delimiter: at a closing delimiter with no group or the
/// wrong group to close, or, when groups are left open, at the opening delimiter of one.
pub proof fn law_tast_fails_at_a_delimiter(ts: Seq<(TokenV, SourceSpan)>)
    ensures
        spec_tast(ts) matches Err(e) ==> exists|i: int| #[trigger] fails_at(ts, i, e),
{
    lemma_tast_run_sources(ts);
    if tast_run(ts) is Ok {
        let st = tast_run(ts)->Ok_0;
        if st.braces.len() > 0 {
            assert(opened_at(ts, st.opens[st.opens.len() - 1]));
        }
    }
}

/// Whether two literals are the same.
pub fn literal_eq<'a, 'b>(a: &Literal<'a>, b: &Literal<'b>) -> (r: bool)
    ensures
        r == (a@ == b@),
{
    match (a, b) {
        (Literal::Identifier(x), Literal::Identifier(y)) => str_eq(x, y),
        (Literal::String(x), Literal::String(y)) => str_eq(x, y),
        (Literal::Int(x), Literal::Int(y)) => *x == *y,
        (Literal::Long(x), Literal::Long(y)) => *x == *y,
        (Literal::Byte(x), Literal::Byte(y)) => *x == *y,
        (Literal::Float(x), Literal::Float(y)) => str_eq(x, y),
        (Literal::Double(x), Literal::Double(y)) => str_eq(x, y),
        _ => false,
    }
}

impl<'a> Token<'a> {
    /// A copy of the token, its groups' items included.
    pub fn duplicate(&self) -> (r: Token<'a>)
        ensures
            r@ == self@,
        decreases self,
    {
        match self {
            Token::Keyword(k) => Token::Keyword(*k),
            Token::Punct(p) => Token::Punct(*p),
            Token::Comparison(c) => Token::Comparison(*c),
            Token::Assignment(a) => Token::Assignment(*a),
            Token::Operator(o) => Token::Operator(*o),
            Token::Literal(l) => Token::Literal(*l),
            Token::BraceGroup(b, items) => {
                let mut out: Vec<(Token<'a>, SourceSpan)> = Vec::new();
                let mut i: usize = 0;
                proof { lemma_trees_view(items@); }
                #[verifier::loop_isolation(false)]
                while i < items.len()
                    invariant
                        i <= items@.len(),
                        trees_view(out@) == trees_view(items@).take(i as int),
                        trees_view(items@).len() == items@.len(),
                        forall|j: int| 0 <= j < items@.len() ==> #[trigger] trees_view(items@)[j] == (items@[j].0@, items@[j].1),
                    decreases items@.len() - i,
                {
                    proof {
                        vstd::std_specs::vec::axiom_vec_index_decreases(*items, i as int);
                        assert(decreases_to!(*self => *items));
                    }
                    let x = items[i].0.duplicate();
                    let ghost before = out@;
                    out.push((x, items[i].1));
                    proof {
                        lemma_trees_view_push(before, (x, items@[i as int].1));
                        assert(trees_view(items@).take(i + 1) =~= trees_view(items@).take(i as int).push(trees_view(items@)[i as int]));
                    }
                    i = i + 1;
                }
                assert(trees_view(items@).take(items@.len() as int) =~= trees_view(items@));
                Token::BraceGroup(*b, out)
            },
        }
    }

    /// Whether two tokens are the same, their groups' items included.
    pub fn same(&self, other: &Token<'a>) -> (r: bool)
        ensures
            r == (self@ == other@),
        decreases self,
    {
        match (self, other) {
            (Token::Keyword(x), Token::Keyword(y)) => *x == *y,
            (Token::Punct(x), Token::Punct(y)) => *x == *y,
            (Token::Comparison(x), Token::Comparison(y)) => *x == *y,
            (Token::Assignment(x), Token::Assignment(y)) => *x == *y,
            (Token::Operator(x), Token::Operator(y)) => *x == *y,
            (Token::Literal(x), Token::Literal(y)) => literal_eq(x, y),
            (Token::BraceGroup(b1, v1), Token::BraceGroup(b2, v2)) => {
                if *b1 != *b2 || v1.len() != v2.len() {
                    proof {
                        lemma_trees_view(v1@);
                        lemma_trees_view(v2@);
                    }
                    return false;
                }
                proof {
                    lemma_trees_view(v1@);
                    lemma_trees_view(v2@);
                }
                let mut i: usize = 0;
                #[verifier::loop_isolation(false)]
                while i < v1.len()
                    invariant
                        v1@.len() == v2@.len(),
                        i <= v1@.len(),
                        trees_view(v1@).len() == v1@.len(),
                        trees_view(v2@).len() == v2@.len(),
                        forall|j: int| 0 <= j < v1@.len() ==> #[trigger] trees_view(v1@)[j] == (v1@[j].0@, v1@[j].1),
                        forall|j: int| 0 <= j < v2@.len() ==> #[trigger] trees_view(v2@)[j] == (v2@[j].0@, v2@[j].1),
                        forall|j: int| 0 <= j < i ==> trees_view(v1@)[j] == trees_view(v2@)[j],
                    decreases v1@.len() - i,
                {
                    proof {
                        vstd::std_specs::vec::axiom_vec_index_decreases(*v1, i as int);
                        assert(decreases_to!(*self => *v1));
                    }
                    if !v1[i].0.same(&v2[i].0) || v1[i].1 != v2[i].1 {
                        assert(trees_view(v1@)[i as int] != trees_view(v2@)[i as int]);
                        return false;
                    }
                    i = i + 1;
                }
                assert(trees_view(v1@) =~= trees_view(v2@));
                true
            },
            _ => false,
        }
    }
}

/// Gathers delimiter groups into nested tokens.
///
/// Fails on a closing delimiter with no open group or of another kind than the open group.
/// A group left open at the end fails at the opening delimiter of the innermost such group.
pub fn tast_from_tokens<'a>(tokens: Vec<(token::Token<'a>, SourceSpan)>) -> (r: Result<Vec<(Token<'a>, SourceSpan)>, Error>)
    ensures
        match r {
            Ok(v) => spec_tast(tokens_view(tokens@)) == Ok::<_, Error>(trees_view(v@)),
            Err(e) => spec_tast(tokens_view(tokens@)) == Err::<Seq<(TreeV, SourceSpan)>, _>(e),
        },
{
    let ghost ts = tokens_view(tokens@);
    let mut stack: Vec<Vec<(Token<'a>, SourceSpan)>> = Vec::new();
    let mut braces: Vec<BraceType> = Vec::new();
    let mut opens: Vec<SourceSpan> = Vec::new();
    stack.push(Vec::new());
    assert(stack_view(stack@) =~= tast_init().stack);
    assert(ts.take(0) =~= Seq::<(TokenV, SourceSpan)>::empty());
    let n = tokens.len();
    let mut i: usize = 0;
    while i < n
        invariant
            n == tokens@.len(),
            ts == tokens_view(tokens@),
            i <= n,
            tast_run(ts.take(i as int)) == Ok::<_, Error>(TastState { stack: stack_view(stack@), braces: braces@, opens: opens@ }),
            ts.take(n as int) == ts,
            stack@.len() == braces@.len() + 1,
            opens@.len() == braces@.len(),
        decreases n - i,
    {
        let (tkn, span) = tokens[i];
        proof {
            assert(ts.take(i + 1).drop_last() =~= ts.take(i as int));
            assert(ts.take(i + 1).last() == (tkn@, span));
        }
        let ghost st = TastState { stack: stack_view(stack@), braces: braces@, opens: opens@ };
        match tkn {
            token::Token::Punct(token::Punct::GroupStart(it)) => {
                braces.push(it);
                opens.push(span);
                stack.push(Vec::new());
                assert(stack_view(stack@) =~= st.stack.push(Seq::empty()));
            },
            token::Token::Punct(token::Punct::GroupEnd(it)) => {
                if braces.len() == 0 {
                    proof { lemma_tast_run_err_prefix(ts, i + 1); }
                    return Err(Error::UnexpectedGroupClose { span });
                }
                let last = braces[braces.len() - 1];
                if last != it {
                    proof { lemma_tast_run_err_prefix(ts, i + 1); }
                    return Err(Error::MismatchedBraceType { expect: last, got: it, span });
                }
                let iter = stack.pop().unwrap();
                let kind = braces.pop().unwrap();
                let _open = opens.pop().unwrap();
                proof { lemma_trees_view(iter@); }
                assert(stack_view(stack@) =~= st.stack.drop_last());
                assert(trees_view(iter@) == st.stack.last());
                let gspan = if iter.len() == 0 {
                    span
                } else {
                    iter[0].1.join(iter[iter.len() - 1].1)
                };
                assert(gspan == group_span(trees_view(iter@), span));
                push_item(&mut stack, (Token::BraceGroup(kind, iter), gspan));
            },
            _ => {
                push_item(&mut stack, (leaf(tkn), span));
            },
        }
        i = i + 1;
    }
    if braces.len() > 0 {
        return Err(Error::UnclosedGroup { span: opens[opens.len() - 1] });
    }
    Ok(stack.pop().unwrap())
}

} // verus!

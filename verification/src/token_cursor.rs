//! A cursor over token trees, with look-ahead, spans and saved states.
use vstd::prelude::*;
use crate::display::{spaced_text, write_spaced};
use crate::lexer::{unexpected_error, Error, ErrorV};
use crate::span::{spec_join, SourceSpan};
use crate::tast::{lemma_trees_view, trees_view, Token, TreeV};
use crate::token::{BraceType, Literal, LiteralV};

verus! {

/// Reads a list of spanned token trees.
///
/// `pos` is the number of tokens consumed; `peeker` how far the look-ahead has gone past
/// `pos`. `spans` is a stack of opened spans; `state_stack` holds saved cursor states.
pub struct TokenCursor<'a> {
    inner: Vec<(Token<'a>, SourceSpan)>,
    pos: usize,
    peeker: usize,
    spans: Vec<SourceSpan>,
    state_stack: Vec<(usize, usize, Vec<SourceSpan>)>,
}

/// The span of the last consumed token (of the first one before any is consumed), or an
/// empty span at 0 when there are no tokens.
pub open spec fn cur_span_of(ts: Seq<(TreeV, SourceSpan)>, pos: int) -> SourceSpan {
    if ts.len() == 0 {
        SourceSpan { start: 0, end: 0 }
    } else if pos <= 0 {
        ts[0].1
    } else {
        ts[pos - 1].1
    }
}

/// The span of the token before the last consumed one (of the first one while at most one
/// is consumed).
pub open spec fn prev_span_of(ts: Seq<(TreeV, SourceSpan)>, pos: int) -> SourceSpan {
    if pos <= 1 {
        ts[0].1
    } else {
        ts[pos - 2].1
    }
}

pub open spec fn state_view(s: (usize, usize, Vec<SourceSpan>)) -> (int, int, Seq<SourceSpan>) {
    (s.0 as int, s.1 as int, s.2@)
}

/// The abstract state of a token cursor.
pub struct CursorModel {
    pub tokens: Seq<(TreeV, SourceSpan)>,
    pub pos: int,
    pub peeker: int,
    pub spans: Seq<SourceSpan>,
    pub states: Seq<(int, int, Seq<SourceSpan>)>,
}

/// `save`: pushes the position, the look-ahead and the open spans.
pub open spec fn save_spec(m: CursorModel) -> CursorModel {
    CursorModel { states: m.states.push((m.pos, m.peeker, m.spans)), ..m }
}

/// `restore`: pops the last saved state and goes back to it.
pub open spec fn restore_spec(m: CursorModel) -> CursorModel {
    CursorModel {
        pos: m.states.last().0,
        peeker: m.states.last().1,
        spans: m.states.last().2,
        states: m.states.drop_last(),
        ..m
    }
}

/// `pop_state`: drops the last saved state.
pub open spec fn pop_state_spec(m: CursorModel) -> CursorModel {
    CursorModel { states: m.states.drop_last(), ..m }
}

/// `next`: consumes a token when one is left, resetting the look-ahead.
pub open spec fn next_spec(m: CursorModel) -> CursorModel {
    if m.pos < m.tokens.len() {
        CursorModel { pos: m.pos + 1, peeker: 0, ..m }
    } else {
        m
    }
}

/// `back`: steps back one token, not before the first.
pub open spec fn back_spec(m: CursorModel) -> CursorModel {
    CursorModel { pos: if m.pos == 0 { 0 } else { m.pos - 1 }, ..m }
}

/// Restoring right after saving gives back the cursor as it was.
pub proof fn law_restore_after_save(m: CursorModel)
    ensures
        restore_spec(save_spec(m)) == m,
{
    assert(save_spec(m).states.drop_last() =~= m.states);
}

/// Dropping a state right after saving it gives back the cursor as it was.
pub proof fn law_pop_state_after_save(m: CursorModel)
    ensures
        pop_state_spec(save_spec(m)) == m,
{
    assert(save_spec(m).states.drop_last() =~= m.states);
}

/// Stepping back right after consuming a token returns to the same position, with the
/// look-ahead reset.
pub proof fn law_back_after_next(m: CursorModel)
    requires
        0 <= m.pos < m.tokens.len(),
    ensures
        back_spec(next_spec(m)) == (CursorModel { peeker: 0, ..m }),
{
}

/// A cursor operation, as it acts on the saved states: `save`, `restore`, `pop_state`, or
/// any other operation, which keeps the tokens and the saved states and may move the
/// position, the look-ahead and the open spans.
pub enum CursorOp {
    Save,
    Restore,
    PopState,
    Move { pos: int, peeker: int, spans: Seq<SourceSpan> },
}

pub open spec fn apply_op(m: CursorModel, op: CursorOp) -> CursorModel {
    match op {
        CursorOp::Save => save_spec(m),
        CursorOp::Restore => restore_spec(m),
        CursorOp::PopState => pop_state_spec(m),
        CursorOp::Move { pos, peeker, spans } => CursorModel { pos, peeker, spans, ..m },
    }
}

pub open spec fn apply_ops(m: CursorModel, ops: Seq<CursorOp>) -> CursorModel
    decreases ops.len(),
{
    if ops.len() == 0 {
        m
    } else {
        apply_ops(apply_op(m, ops[0]), ops.drop_first())
    }
}

/// Whether `ops`, started with `h` states saved above a base, never restores or drops a state
/// at or below the base, and ends with `end` states above it.
pub open spec fn matched_from(ops: Seq<CursorOp>, h: int, end: int) -> bool
    decreases ops.len(),
{
    if ops.len() == 0 {
        h == end
    } else {
        match ops[0] {
            CursorOp::Save => matched_from(ops.drop_first(), h + 1, end),
            CursorOp::Restore | CursorOp::PopState => h >= 1 && matched_from(ops.drop_first(), h - 1, end),
            CursorOp::Move { .. } => matched_from(ops.drop_first(), h, end),
        }
    }
}

proof fn lemma_apply_ops_keeps_base(m: CursorModel, ops: Seq<CursorOp>, base: int, h: int, end: int)
    requires
        0 <= base,
        0 <= h,
        m.states.len() == base + h,
        matched_from(ops, h, end),
    ensures
        apply_ops(m, ops).states.len() == base + end,
        apply_ops(m, ops).states.take(base) == m.states.take(base),
        apply_ops(m, ops).tokens == m.tokens,
    decreases ops.len(),
{
    if ops.len() > 0 {
        let m1 = apply_op(m, ops[0]);
        let h1 = match ops[0] {
            CursorOp::Save => h + 1,
            CursorOp::Restore | CursorOp::PopState => h - 1,
            CursorOp::Move { .. } => h,
        };
        assert(m1.states.take(base) =~= m.states.take(base));
        lemma_apply_ops_keeps_base(m1, ops.drop_first(), base, h1, end);
    }
}

/// Restoring gives back the cursor as it was saved, whatever ran in between, as long as
/// every state saved in between was restored or dropped again.
pub proof fn law_restore_after_matched_ops(m: CursorModel, ops: Seq<CursorOp>)
    requires
        matched_from(ops, 0, 0),
    ensures
        restore_spec(apply_ops(save_spec(m), ops)) == m,
{
    let m1 = save_spec(m);
    let base: int = m.states.len() as int + 1;
    lemma_apply_ops_keeps_base(m1, ops, base, 0, 0);
    let m2 = apply_ops(m1, ops);
    assert(m2.states =~= m1.states) by {
        assert(m2.states.take(base) =~= m2.states);
        assert(m1.states.take(base) =~= m1.states);
    }
    assert(m2.states.drop_last() =~= m.states);
}

/// The tokens, the open spans and the saved states are unchanged, and the cursor is sound.
pub open spec fn kept<'a>(a: TokenCursor<'a>, b: TokenCursor<'a>) -> bool {
    &&& b.wf()
    &&& b.tokens() == a.tokens()
    &&& b.spans() == a.spans()
    &&& b.states() == a.states()
    &&& forall|i: int| 0 <= i < a.tokens().len() ==> #[trigger] b.token_at(i) == a.token_at(i)
}

/// A copy of a list of spans.
fn copy_spans(v: &Vec<SourceSpan>) -> (r: Vec<SourceSpan>)
    ensures
        r@ == v@,
{
    let mut r: Vec<SourceSpan> = Vec::new();
    let mut i: usize = 0;
    while i < v.len()
        invariant
            i <= v@.len(),
            r@ == v@.subrange(0, i as int),
        decreases v@.len() - i,
    {
        r.push(v[i]);
        i = i + 1;
    }
    assert(r@ == v@);
    r
}

impl<'a> TokenCursor<'a> {
    /// The tokens, by value.
    pub closed spec fn tokens(&self) -> Seq<(TreeV, SourceSpan)> {
        trees_view(self.inner@)
    }

    /// The token at place `i`, as held.
    pub closed spec fn token_at(&self, i: int) -> Token<'a> {
        self.inner@[i].0
    }

    pub closed spec fn pos(&self) -> int {
        self.pos as int
    }

    /// The cursor's abstract state.
    pub open spec fn model(&self) -> CursorModel {
        CursorModel {
            tokens: self.tokens(),
            pos: self.pos(),
            peeker: self.peeker(),
            spans: self.spans(),
            states: self.states(),
        }
    }

    pub closed spec fn peeker(&self) -> int {
        self.peeker as int
    }

    pub closed spec fn spans(&self) -> Seq<SourceSpan> {
        self.spans@
    }

    /// The saved states: position, look-ahead and open spans.
    pub closed spec fn states(&self) -> Seq<(int, int, Seq<SourceSpan>)> {
        self.state_stack@.map_values(|s: (usize, usize, Vec<SourceSpan>)| state_view(s))
    }

    /// The cursor's invariant: the look-ahead, and that of every saved state, stays within
    /// the tokens.
    pub closed spec fn wf(&self) -> bool {
        &&& self.inner@.len() <= usize::MAX
        &&& self.pos + self.peeker <= self.inner@.len()
        &&& forall|i: int| 0 <= i < self.state_stack@.len() ==>
            (#[trigger] self.state_stack@[i]).0 + self.state_stack@[i].1 <= self.inner@.len()
    }

    pub proof fn lemma_wf(&self)
        requires
            self.wf(),
        ensures
            0 <= self.pos(),
            0 <= self.peeker(),
            self.pos() + self.peeker() <= self.tokens().len(),
            self.tokens().len() <= usize::MAX,
            forall|i: int| 0 <= i < self.tokens().len() ==> (#[trigger] self.token_at(i))@ == self.tokens()[i].0,
            forall|i: int| 0 <= i < self.states().len() ==> 0 <= (#[trigger] self.states()[i]).0 && 0 <= self.states()[i].1
                && self.states()[i].0 + self.states()[i].1 <= self.tokens().len(),
    {
        lemma_trees_view(self.inner@);
        assert forall|i: int| 0 <= i < self.states().len() implies 0 <= (#[trigger] self.states()[i]).0 && 0 <= self.states()[i].1
            && self.states()[i].0 + self.states()[i].1 <= self.tokens().len() by {
            assert(self.states()[i] == state_view(self.state_stack@[i]));
        }
    }

    /// A cursor at the first of `tokens`.
    pub fn new(tokens: Vec<(Token<'a>, SourceSpan)>) -> (r: TokenCursor<'a>)
        ensures
            r.wf(),
            r.tokens() == trees_view(tokens@),
            r.pos() == 0,
            r.peeker() == 0,
            r.spans() == Seq::<SourceSpan>::empty(),
            r.states() == Seq::<(int, int, Seq<SourceSpan>)>::empty(),
    {
        // Reading the length tells the verifier that it fits in a usize.
        let _n = tokens.len();
        let r = TokenCursor { inner: tokens, pos: 0, peeker: 0, spans: Vec::new(), state_stack: Vec::new() };
        assert(r.states() =~= Seq::<(int, int, Seq<SourceSpan>)>::empty());
        r
    }

    /// See `cur_span_of`.
    pub fn cur_span(&self) -> (r: SourceSpan)
        requires
            self.wf(),
        ensures
            r == cur_span_of(self.tokens(), self.pos()),
    {
        proof { lemma_trees_view(self.inner@); }
        if self.inner.len() == 0 {
            return SourceSpan { start: 0, end: 0 };
        }
        if self.pos == 0 {
            self.inner[self.pos].1
        } else {
            self.inner[self.pos - 1].1
        }
    }

    /// See `prev_span_of`.
    pub fn prev_span(&self) -> (r: SourceSpan)
        requires
            self.wf(),
            self.tokens().len() > 0,
        ensures
            r == prev_span_of(self.tokens(), self.pos()),
    {
        proof { lemma_trees_view(self.inner@); }
        if self.pos <= 1 {
            self.inner[0].1
        } else {
            self.inner[self.pos - 2].1
        }
    }

    /// Opens a span at the current token.
    pub fn begin_span(&mut self)
        requires
            old(self).wf(),
        ensures
            final(self).wf(),
            final(self).tokens() == old(self).tokens(),
            final(self).pos() == old(self).pos(),
            final(self).peeker() == old(self).peeker(),
            final(self).states() == old(self).states(),
            final(self).spans() == old(self).spans().push(cur_span_of(old(self).tokens(), old(self).pos())),
    {
        let sp = self.cur_span();
        self.spans.push(sp);
    }

    /// Opens a span at the token before the current one.
    pub fn begin_span_prev(&mut self)
        requires
            old(self).wf(),
            old(self).tokens().len() > 0,
        ensures
            final(self).wf(),
            final(self).tokens() == old(self).tokens(),
            final(self).pos() == old(self).pos(),
            final(self).peeker() == old(self).peeker(),
            final(self).states() == old(self).states(),
            final(self).spans() == old(self).spans().push(prev_span_of(old(self).tokens(), old(self).pos())),
    {
        let sp = self.prev_span();
        self.spans.push(sp);
    }

    /// Closes the innermost span: it runs from where it was opened to the current token.
    pub fn end_span(&mut self) -> (r: SourceSpan)
        requires
            old(self).wf(),
            old(self).spans().len() > 0,
        ensures
            final(self).wf(),
            final(self).tokens() == old(self).tokens(),
            final(self).pos() == old(self).pos(),
            final(self).peeker() == old(self).peeker(),
            final(self).states() == old(self).states(),
            final(self).spans() == old(self).spans().drop_last(),
            r == spec_join(old(self).spans().last(), cur_span_of(old(self).tokens(), old(self).pos())),
    {
        let start = self.spans.pop().unwrap();
        let end = self.cur_span();
        start.join(end)
    }

    /// Looks at the token `peeker` places ahead and moves the look-ahead one further.
    pub fn peek(&mut self) -> (r: Option<&Token<'a>>)
        requires
            old(self).wf(),
        ensures
            kept(*old(self), *final(self)),
            final(self).pos() == old(self).pos(),
            ({
                let (p, k, ts) = (old(self).pos(), old(self).peeker(), old(self).tokens());
                if p + k < ts.len() {
                    &&& r matches Some(t) && *t == old(self).token_at(p + k) && t@ == ts[p + k].0
                    &&& final(self).peeker() == k + 1
                } else {
                    &&& r is None
                    &&& final(self).peeker() == k
                }
            }),
    {
        proof {
            self.lemma_wf();
            lemma_trees_view(self.inner@);
        }
        if self.pos + self.peeker < self.inner.len() {
            let res = &self.inner[self.pos + self.peeker];
            self.peeker = self.peeker + 1;
            Some(&res.0)
        } else {
            None
        }
    }

    /// Like `peek`, with the token's span.
    pub fn peek_full(&mut self) -> (r: Option<&(Token<'a>, SourceSpan)>)
        requires
            old(self).wf(),
        ensures
            kept(*old(self), *final(self)),
            final(self).pos() == old(self).pos(),
            ({
                let (p, k, ts) = (old(self).pos(), old(self).peeker(), old(self).tokens());
                if p + k < ts.len() {
                    &&& r matches Some(t) && t.0 == old(self).token_at(p + k) && t.0@ == ts[p + k].0 && t.1 == ts[p + k].1
                    &&& final(self).peeker() == k + 1
                } else {
                    &&& r is None
                    &&& final(self).peeker() == k
                }
            }),
    {
        proof {
            self.lemma_wf();
            lemma_trees_view(self.inner@);
        }
        if self.pos + self.peeker < self.inner.len() {
            let res = &self.inner[self.pos + self.peeker];
            self.peeker = self.peeker + 1;
            Some(res)
        } else {
            None
        }
    }

    /// Moves the look-ahead `num` places on when a token lies `num` places past it, and
    /// returns the token just before that one.
    pub fn peek_in(&mut self, num: usize) -> (r: Option<&Token<'a>>)
        requires
            old(self).wf(),
            old(self).pos() + old(self).peeker() + num <= usize::MAX,
            old(self).pos() + old(self).peeker() + num < old(self).tokens().len()
                ==> old(self).pos() + old(self).peeker() + num >= 1,
        ensures
            kept(*old(self), *final(self)),
            final(self).pos() == old(self).pos(),
            ({
                let (p, k, ts) = (old(self).pos(), old(self).peeker(), old(self).tokens());
                if p + k + num < ts.len() {
                    &&& r matches Some(t) && t@ == ts[p + k + num - 1].0
                    &&& final(self).peeker() == k + num
                } else {
                    &&& r is None
                    &&& final(self).peeker() == k
                }
            }),
    {
        proof {
            self.lemma_wf();
            lemma_trees_view(self.inner@);
        }
        if self.pos + self.peeker + num < self.inner.len() {
            let res = &self.inner[self.pos + self.peeker + num - 1];
            self.peeker = self.peeker + num;
            Some(&res.0)
        } else {
            None
        }
    }

    /// Consumes the next token and returns a copy of it, resetting the look-ahead.
    pub fn next(&mut self) -> (r: Option<(Token<'a>, SourceSpan)>)
        requires
            old(self).wf(),
        ensures
            final(self).model() == next_spec(old(self).model()),
            kept(*old(self), *final(self)),
            ({
                let (p, ts) = (old(self).pos(), old(self).tokens());
                if p < ts.len() {
                    &&& r matches Some(t) && t.0@ == ts[p].0 && t.1 == ts[p].1
                    &&& final(self).pos() == p + 1
                    &&& final(self).peeker() == 0
                } else {
                    &&& r is None
                    &&& final(self).pos() == p
                    &&& final(self).peeker() == old(self).peeker()
                }
            }),
    {
        proof {
            self.lemma_wf();
            lemma_trees_view(self.inner@);
        }
        if self.pos < self.inner.len() {
            self.peeker = 0;
            let res = Some((self.inner[self.pos].0.duplicate(), self.inner[self.pos].1));
            self.pos = self.pos + 1;
            res
        } else {
            None
        }
    }

    /// Steps back one token (not before the first); the look-ahead is kept.
    pub fn back(&mut self)
        requires
            old(self).wf(),
        ensures
            final(self).model() == back_spec(old(self).model()),
            kept(*old(self), *final(self)),
            final(self).peeker() == old(self).peeker(),
            final(self).pos() == if old(self).pos() == 0 { 0 } else { old(self).pos() - 1 },
    {
        self.pos = if self.pos == 0 { 0 } else { self.pos - 1 };
    }

    /// Whether tokens are left.
    pub fn has_next(&self) -> (r: bool)
        requires
            self.wf(),
        ensures
            r == (self.pos() < self.tokens().len()),
    {
        proof {
            self.lemma_wf();
            lemma_trees_view(self.inner@);
        }
        self.pos < self.inner.len()
    }

    /// Resets the look-ahead to the next token.
    pub fn clear_peek(&mut self)
        requires
            old(self).wf(),
        ensures
            kept(*old(self), *final(self)),
            final(self).pos() == old(self).pos(),
            final(self).peeker() == 0,
    {
        self.peeker = 0;
    }

    /// Consumes the next token if `f` accepts the look-ahead token; otherwise moves the
    /// look-ahead one place back (not below zero).
    pub fn next_if<F: Fn(&Token<'a>) -> bool>(&mut self, f: F) -> (r: Option<(Token<'a>, SourceSpan)>)
        requires
            old(self).wf(),
            forall|t: &Token<'a>| #[trigger] f.requires((t,)),
        ensures
            kept(*old(self), *final(self)),
            ({
                let (p, k, ts) = (old(self).pos(), old(self).peeker(), old(self).tokens());
                if p + k < ts.len() {
                    let x = old(self).token_at(p + k);
                    &&& r is Some ==> {
                        &&& f.ensures((&x,), true)
                        &&& (r->0).0@ == ts[p].0
                        &&& (r->0).1 == ts[p].1
                        &&& final(self).pos() == p + 1
                        &&& final(self).peeker() == 0
                    }
                    &&& r is None ==> {
                        &&& f.ensures((&x,), false)
                        &&& final(self).pos() == p
                        &&& final(self).peeker() == k
                    }
                } else {
                    &&& r is None
                    &&& final(self).pos() == p
                    &&& final(self).peeker() == if k == 0 { 0 } else { k - 1 }
                }
            }),
    {
        proof {
            self.lemma_wf();
            lemma_trees_view(self.inner@);
        }
        let at = self.pos + self.peeker;
        let hit = if at < self.inner.len() {
            self.peeker = self.peeker + 1;
            f(&self.inner[at].0)
        } else {
            false
        };
        if hit {
            self.next()
        } else {
            self.peeker = if self.peeker == 0 { 0 } else { self.peeker - 1 };
            None
        }
    }

    /// Consumes the next token if the look-ahead token equals `eq`; otherwise moves the
    /// look-ahead one place back (not below zero).
    pub fn next_if_eq(&mut self, eq: &Token<'a>) -> (r: Option<(Token<'a>, SourceSpan)>)
        requires
            old(self).wf(),
        ensures
            kept(*old(self), *final(self)),
            ({
                let (p, k, ts) = (old(self).pos(), old(self).peeker(), old(self).tokens());
                if p + k < ts.len() && ts[p + k].0 == eq@ {
                    &&& r matches Some(t) && t.0@ == ts[p].0 && t.1 == ts[p].1
                    &&& final(self).pos() == p + 1
                    &&& final(self).peeker() == 0
                } else {
                    &&& r is None
                    &&& final(self).pos() == p
                    &&& final(self).peeker() == if p + k < ts.len() { k } else if k == 0 { 0 } else { k - 1 }
                }
            }),
    {
        proof {
            self.lemma_wf();
            lemma_trees_view(self.inner@);
        }
        let at = self.pos + self.peeker;
        let hit = if at < self.inner.len() {
            self.peeker = self.peeker + 1;
            self.inner[at].0.same(eq)
        } else {
            false
        };
        if hit {
            self.next()
        } else {
            self.peeker = if self.peeker == 0 { 0 } else { self.peeker - 1 };
            None
        }
    }

    /// Consumes the next token if the look-ahead token is the identifier `ident`.
    pub fn next_if_ident(&mut self, ident: &'a str) -> (r: Option<(Token<'a>, SourceSpan)>)
        requires
            old(self).wf(),
        ensures
            kept(*old(self), *final(self)),
            ({
                let (p, k, ts) = (old(self).pos(), old(self).peeker(), old(self).tokens());
                if p + k < ts.len() && ts[p + k].0 == TreeV::Literal(LiteralV::Identifier(ident@)) {
                    &&& r matches Some(t) && t.0@ == ts[p].0 && t.1 == ts[p].1
                    &&& final(self).pos() == p + 1
                    &&& final(self).peeker() == 0
                } else {
                    &&& r is None
                    &&& final(self).pos() == p
                    &&& final(self).peeker() == if p + k < ts.len() { k } else if k == 0 { 0 } else { k - 1 }
                }
            }),
    {
        self.next_if_eq(&Token::Literal(Literal::Identifier(ident)))
    }

    /// Consumes up to `count` tokens and returns copies of them.
    pub fn take(&mut self, count: usize) -> (r: Vec<(Token<'a>, SourceSpan)>)
        requires
            old(self).wf(),
        ensures
            kept(*old(self), *final(self)),
            ({
                let (p, ts) = (old(self).pos(), old(self).tokens());
                let n = if count <= ts.len() - p { count as int } else { ts.len() - p };
                &&& trees_view(r@) == ts.subrange(p, p + n)
                &&& final(self).pos() == p + n
                &&& final(self).peeker() == if n > 0 { 0 } else { old(self).peeker() }
            }),
    {
        proof {
            self.lemma_wf();
            lemma_trees_view(self.inner@);
        }
        let ghost p = self.pos();
        let ghost ts = self.tokens();
        let mut buf: Vec<(Token<'a>, SourceSpan)> = Vec::new();
        let mut i: usize = 0;
        while i < count
            invariant
                kept(*old(self), *self),
                ts == old(self).tokens(),
                p == old(self).pos(),
                0 <= p <= ts.len(),
                i <= count,
                self.pos() == p + i,
                self.pos() <= ts.len(),
                i > 0 ==> self.peeker() == 0,
                i == 0 ==> self.peeker() == old(self).peeker(),
                trees_view(buf@) == ts.subrange(p, p + i),
            ensures
                kept(*old(self), *self),
                ({
                    let n = if count <= ts.len() - p { count as int } else { ts.len() - p };
                    &&& trees_view(buf@) == ts.subrange(p, p + n)
                    &&& self.pos() == p + n
                    &&& self.peeker() == if n > 0 { 0 } else { old(self).peeker() }
                }),
            decreases count - i,
        {
            match self.next() {
                Some(it) => {
                    let ghost before = buf@;
                    buf.push(it);
                    proof {
                        crate::tast::lemma_trees_view_push(before, it);
                        assert(ts.subrange(p, p + i + 1) =~= ts.subrange(p, p + i).push(ts[p + i]));
                    }
                    i = i + 1;
                },
                None => {
                    break;
                },
            }
        }
        buf
    }

    /// Consumes tokens as long as `f` accepts the look-ahead token, and returns copies of them.
    ///
    /// The first test looks at the look-ahead token; every later one at the next token.
    pub fn take_while<F: Fn(&Token<'a>) -> bool>(&mut self, f: F) -> (r: Vec<(Token<'a>, SourceSpan)>)
        requires
            old(self).wf(),
            forall|t: &Token<'a>| #[trigger] f.requires((t,)),
        ensures
            kept(*old(self), *final(self)),
            ({
                let (p, q, ts) = (old(self).pos(), old(self).peeker(), old(self).tokens());
                let n = r@.len() as int;
                let ask = |i: int| if i == 0 { p + q } else { p + i };
                &&& p + n <= ts.len()
                &&& trees_view(r@) == ts.subrange(p, p + n)
                &&& final(self).pos() == p + n
                &&& forall|i: int| 0 <= i < n ==> f.ensures((&old(self).token_at(#[trigger] ask(i)),), true)
                &&& ask(n) < ts.len() ==> f.ensures((&old(self).token_at(ask(n)),), false)
                &&& final(self).peeker() == if n > 0 {
                    0
                } else if p + q < ts.len() {
                    q
                } else if q == 0 {
                    0
                } else {
                    q - 1
                }
            }),
    {
        proof {
            self.lemma_wf();
            lemma_trees_view(self.inner@);
        }
        let ghost p = self.pos();
        let ghost q = self.peeker();
        let ghost ts = self.tokens();
        let ghost ask = |i: int| if i == 0 { p + q } else { p + i };
        let mut buf: Vec<(Token<'a>, SourceSpan)> = Vec::new();
        loop
            invariant_except_break
                buf@.len() == 0 ==> self.peeker() == q,
                buf@.len() > 0 ==> self.peeker() == 0,
            invariant
                kept(*old(self), *self),
                ts == old(self).tokens(),
                ts == trees_view(self.inner@),
                p == old(self).pos(),
                q == old(self).peeker(),
                ask == (|i: int| if i == 0 { p + q } else { p + i }),
                forall|f2: &Token<'a>| #[trigger] f.requires((f2,)),
                0 <= p,
                0 <= q,
                self.pos() == p + buf@.len(),
                self.pos() <= ts.len(),
                trees_view(buf@) == ts.subrange(p, p + buf@.len()),
                forall|i: int| 0 <= i < buf@.len() ==> f.ensures((&old(self).token_at(#[trigger] ask(i)),), true),
            ensures
                kept(*old(self), *self),
                p + buf@.len() <= ts.len(),
                trees_view(buf@) == ts.subrange(p, p + buf@.len()),
                self.pos() == p + buf@.len(),
                forall|i: int| 0 <= i < buf@.len() ==> f.ensures((&old(self).token_at(#[trigger] ask(i)),), true),
                ask(buf@.len() as int) < ts.len() ==> f.ensures((&old(self).token_at(ask(buf@.len() as int)),), false),
                self.peeker() == if buf@.len() > 0 {
                    0
                } else if p + q < ts.len() {
                    q
                } else if q == 0 {
                    0
                } else {
                    q - 1
                },
            decreases ts.len() - self.pos() + (if buf@.len() == 0 { 1int } else { 0int }),
        {
            proof {
                self.lemma_wf();
                lemma_trees_view(self.inner@);
            }
            let at = self.pos + self.peeker;
            assert(at == ask(buf@.len() as int));
            let ghost mid = *self;
            let hit = if at < self.inner.len() {
                self.peeker = self.peeker + 1;
                assert(self.token_at(at as int) == mid.token_at(at as int));
                assert(old(self).token_at(at as int) == mid.token_at(at as int));
                f(&self.inner[at].0)
            } else {
                false
            };
            assert(kept(mid, *self));
            if hit {
                let it = self.next().unwrap();
                let ghost before = buf@;
                buf.push(it);
                proof {
                    crate::tast::lemma_trees_view_push(before, it);
                    assert(ts.subrange(p, p + before.len() + 1) =~= ts.subrange(p, p + before.len()).push(ts[p + before.len()]));
                }
                assert(kept(*old(self), *self));
            } else {
                self.peeker = if self.peeker == 0 { 0 } else { self.peeker - 1 };
                assert(kept(mid, *self));
                assert(kept(*old(self), *self));
                break;
            }
        }
        buf
    }

    /// Saves the position, the look-ahead and the open spans.
    pub fn save(&mut self)
        requires
            old(self).wf(),
        ensures
            final(self).model() == save_spec(old(self).model()),
            final(self).wf(),
            final(self).tokens() == old(self).tokens(),
            final(self).pos() == old(self).pos(),
            final(self).peeker() == old(self).peeker(),
            final(self).spans() == old(self).spans(),
            final(self).states() == old(self).states().push((old(self).pos(), old(self).peeker(), old(self).spans())),
            forall|i: int| 0 <= i < old(self).tokens().len() ==> #[trigger] final(self).token_at(i) == old(self).token_at(i),
    {
        let spans = copy_spans(&self.spans);
        let ghost old_stack = self.state_stack@;
        self.state_stack.push((self.pos, self.peeker, spans));
        assert(self.states() =~= old(self).states().push((old(self).pos(), old(self).peeker(), old(self).spans()))) by {
            assert(self.state_stack@ == old_stack.push((self.pos, self.peeker, spans)));
        }
        assert forall|i: int| 0 <= i < self.state_stack@.len() implies
            (#[trigger] self.state_stack@[i]).0 + self.state_stack@[i].1 <= self.inner@.len() by {
            if i < old_stack.len() {
                assert(self.state_stack@[i] == old_stack[i]);
            }
        }
    }

    /// Goes back to the last saved state, which is dropped.
    pub fn restore(&mut self)
        requires
            old(self).wf(),
            old(self).states().len() > 0,
        ensures
            final(self).model() == restore_spec(old(self).model()),
            final(self).wf(),
            final(self).tokens() == old(self).tokens(),
            (final(self).pos(), final(self).peeker(), final(self).spans()) == old(self).states().last(),
            final(self).states() == old(self).states().drop_last(),
            forall|i: int| 0 <= i < old(self).tokens().len() ==> #[trigger] final(self).token_at(i) == old(self).token_at(i),
    {
        let ghost old_stack = self.state_stack@;
        let (pos, peeker, spans) = self.state_stack.pop().unwrap();
        assert(old_stack.last() == (pos, peeker, spans));
        assert(old_stack[old_stack.len() - 1] == (pos, peeker, spans));
        self.pos = pos;
        self.peeker = peeker;
        self.spans = spans;
        assert(self.states() =~= old(self).states().drop_last());
        assert forall|i: int| 0 <= i < self.state_stack@.len() implies
            (#[trigger] self.state_stack@[i]).0 + self.state_stack@[i].1 <= self.inner@.len() by {
            assert(self.state_stack@[i] == old_stack[i]);
        }
    }

    /// Drops the last saved state.
    pub fn pop_state(&mut self)
        requires
            old(self).wf(),
            old(self).states().len() > 0,
        ensures
            final(self).model() == pop_state_spec(old(self).model()),
            final(self).wf(),
            final(self).tokens() == old(self).tokens(),
            final(self).pos() == old(self).pos(),
            final(self).peeker() == old(self).peeker(),
            final(self).spans() == old(self).spans(),
            final(self).states() == old(self).states().drop_last(),
            forall|i: int| 0 <= i < old(self).tokens().len() ==> #[trigger] final(self).token_at(i) == old(self).token_at(i),
    {
        let ghost old_stack = self.state_stack@;
        self.state_stack.pop().unwrap();
        assert(self.states() =~= old(self).states().drop_last());
        assert forall|i: int| 0 <= i < self.state_stack@.len() implies
            (#[trigger] self.state_stack@[i]).0 + self.state_stack@[i].1 <= self.inner@.len() by {
            assert(self.state_stack@[i] == old_stack[i]);
        }
    }

    /// Consumes the next token if the look-ahead token is `token`. Otherwise fails with the
    /// look-ahead token (the look-ahead having moved past it), or at the end with the
    /// current span.
    pub fn expect(&mut self, token: Token<'a>) -> (r: Result<(Token<'a>, SourceSpan), Error>)
        requires
            old(self).wf(),
        ensures
            kept(*old(self), *final(self)),
            ({
                let (p, k, ts) = (old(self).pos(), old(self).peeker(), old(self).tokens());
                if p + k < ts.len() {
                    if ts[p + k].0 == token@ {
                        &&& r matches Ok(t) && t.0@ == ts[p].0 && t.1 == ts[p].1
                        &&& final(self).pos() == p + 1
                        &&& final(self).peeker() == 0
                    } else {
                        &&& r matches Err(e) && e@ == unexpected_error(ts[p + k].0, ts[p + k].1)
                        &&& final(self).pos() == p
                        &&& final(self).peeker() == k + 1
                    }
                } else {
                    &&& r matches Err(e) && e@ == (ErrorV::Eof { span: cur_span_of(ts, p) })
                    &&& final(self).pos() == p
                    &&& final(self).peeker() == k
                }
            }),
    {
        proof {
            self.lemma_wf();
            lemma_trees_view(self.inner@);
        }
        let at = self.pos + self.peeker;
        if at < self.inner.len() {
            self.peeker = self.peeker + 1;
            if self.inner[at].0.same(&token) {
                Ok(self.next().unwrap())
            } else {
                Err(Error::UnexpectedToken { token: self.inner[at].0.conv(true), span: self.inner[at].1 })
            }
        } else {
            Err(Error::Eof { span: self.cur_span() })
        }
    }

    /// Like `expect`, with every failure turned into `Error::Skip`.
    pub fn expect_or_skip(&mut self, token: Token<'a>) -> (r: Result<(Token<'a>, SourceSpan), Error>)
        requires
            old(self).wf(),
        ensures
            kept(*old(self), *final(self)),
            ({
                let (p, k, ts) = (old(self).pos(), old(self).peeker(), old(self).tokens());
                if p + k < ts.len() && ts[p + k].0 == token@ {
                    &&& r matches Ok(t) && t.0@ == ts[p].0 && t.1 == ts[p].1
                    &&& final(self).pos() == p + 1
                    &&& final(self).peeker() == 0
                } else {
                    &&& r matches Err(e) && e@ == ErrorV::Skip
                    &&& final(self).pos() == p
                    &&& final(self).peeker() == if p + k < ts.len() { k + 1 } else { k }
                }
            }),
    {
        match self.expect(token) {
            Ok(t) => Ok(t),
            Err(_) => Err(Error::Skip),
        }
    }

    /// Consumes the next token when the look-ahead token is a group of kind `kind`, and
    /// returns a cursor over the items of the consumed group.
    pub fn expect_group(&mut self, kind: BraceType) -> (r: Result<TokenCursor<'a>, Error>)
        requires
            old(self).wf(),
            ({
                let (p, k, ts) = (old(self).pos(), old(self).peeker(), old(self).tokens());
                (p + k < ts.len() && (ts[p + k].0 matches TreeV::Group(b, _) && b == kind)) ==> ts[p].0 is Group
            }),
        ensures
            kept(*old(self), *final(self)),
            ({
                let (p, k, ts) = (old(self).pos(), old(self).peeker(), old(self).tokens());
                if p + k < ts.len() {
                    if ts[p + k].0 matches TreeV::Group(b, _) && b == kind {
                        &&& r matches Ok(c) && c.wf() && c.pos() == 0 && c.peeker() == 0
                            && c.spans().len() == 0 && c.states().len() == 0
                            && ts[p].0 == TreeV::Group(ts[p].0->0, c.tokens())
                        &&& final(self).pos() == p + 1
                        &&& final(self).peeker() == 0
                    } else {
                        &&& r matches Err(e) && e@ == unexpected_error(ts[p + k].0, ts[p + k].1)
                        &&& final(self).pos() == p
                        &&& final(self).peeker() == k + 1
                    }
                } else {
                    &&& r matches Err(e) && e@ == (ErrorV::Eof { span: cur_span_of(ts, p) })
                    &&& final(self).pos() == p
                    &&& final(self).peeker() == k
                }
            }),
    {
        proof {
            self.lemma_wf();
            lemma_trees_view(self.inner@);
        }
        let at = self.pos + self.peeker;
        if at < self.inner.len() {
            self.peeker = self.peeker + 1;
            let is_group = match &self.inner[at].0 {
                Token::BraceGroup(k, _) => *k == kind,
                _ => false,
            };
            if is_group {
                match self.next() {
                    Some((Token::BraceGroup(_, arr), _)) => Ok(TokenCursor::new(arr)),
                    _ => {
                        assert(false);
                        Err(Error::Skip)
                    },
                }
            } else {
                Err(Error::UnexpectedToken { token: self.inner[at].0.conv(true), span: self.inner[at].1 })
            }
        } else {
            Err(Error::Eof { span: self.cur_span() })
        }
    }

    /// Consumes the next token when the look-ahead token is an identifier, and returns the
    /// consumed identifier's name and span.
    pub fn expect_ident(&mut self) -> (r: Result<(&'a str, SourceSpan), Error>)
        requires
            old(self).wf(),
            ({
                let (p, k, ts) = (old(self).pos(), old(self).peeker(), old(self).tokens());
                (p + k < ts.len() && (ts[p + k].0 matches TreeV::Literal(LiteralV::Identifier(_))))
                    ==> ts[p].0 matches TreeV::Literal(LiteralV::Identifier(_))
            }),
        ensures
            kept(*old(self), *final(self)),
            ({
                let (p, k, ts) = (old(self).pos(), old(self).peeker(), old(self).tokens());
                if p + k < ts.len() {
                    if ts[p + k].0 matches TreeV::Literal(LiteralV::Identifier(_)) {
                        &&& r matches Ok(t) && ts[p].0 == TreeV::Literal(LiteralV::Identifier(t.0@)) && t.1 == ts[p].1
                        &&& final(self).pos() == p + 1
                        &&& final(self).peeker() == 0
                    } else {
                        &&& r matches Err(e) && e@ == unexpected_error(ts[p + k].0, ts[p + k].1)
                        &&& final(self).pos() == p
                        &&& final(self).peeker() == k + 1
                    }
                } else {
                    &&& r matches Err(e) && e@ == (ErrorV::Eof { span: cur_span_of(ts, p) })
                    &&& final(self).pos() == p
                    &&& final(self).peeker() == k
                }
            }),
    {
        proof {
            self.lemma_wf();
            lemma_trees_view(self.inner@);
        }
        let at = self.pos + self.peeker;
        if at < self.inner.len() {
            self.peeker = self.peeker + 1;
            let is_ident = match &self.inner[at].0 {
                Token::Literal(Literal::Identifier(_)) => true,
                _ => false,
            };
            if is_ident {
                match self.next() {
                    Some((Token::Literal(Literal::Identifier(id)), span)) => Ok((id, span)),
                    _ => {
                        assert(false);
                        Err(Error::Skip)
                    },
                }
            } else {
                Err(Error::UnexpectedToken { token: self.inner[at].0.conv(true), span: self.inner[at].1 })
            }
        } else {
            Err(Error::Eof { span: self.cur_span() })
        }
    }

    /// Consumes the next token when the look-ahead token is a string literal, and returns
    /// the consumed string's text and span.
    pub fn expect_str(&mut self) -> (r: Result<(&'a str, SourceSpan), Error>)
        requires
            old(self).wf(),
            ({
                let (p, k, ts) = (old(self).pos(), old(self).peeker(), old(self).tokens());
                (p + k < ts.len() && (ts[p + k].0 matches TreeV::Literal(LiteralV::String(_))))
                    ==> ts[p].0 matches TreeV::Literal(LiteralV::String(_))
            }),
        ensures
            kept(*old(self), *final(self)),
            ({
                let (p, k, ts) = (old(self).pos(), old(self).peeker(), old(self).tokens());
                if p + k < ts.len() {
                    if ts[p + k].0 matches TreeV::Literal(LiteralV::String(_)) {
                        &&& r matches Ok(t) && ts[p].0 == TreeV::Literal(LiteralV::String(t.0@)) && t.1 == ts[p].1
                        &&& final(self).pos() == p + 1
                        &&& final(self).peeker() == 0
                    } else {
                        &&& r matches Err(e) && e@ == unexpected_error(ts[p + k].0, ts[p + k].1)
                        &&& final(self).pos() == p
                        &&& final(self).peeker() == k + 1
                    }
                } else {
                    &&& r matches Err(e) && e@ == (ErrorV::Eof { span: cur_span_of(ts, p) })
                    &&& final(self).pos() == p
                    &&& final(self).peeker() == k
                }
            }),
    {
        proof {
            self.lemma_wf();
            lemma_trees_view(self.inner@);
        }
        let at = self.pos + self.peeker;
        if at < self.inner.len() {
            self.peeker = self.peeker + 1;
            let is_str = match &self.inner[at].0 {
                Token::Literal(Literal::String(_)) => true,
                _ => false,
            };
            if is_str {
                match self.next() {
                    Some((Token::Literal(Literal::String(text)), span)) => Ok((text, span)),
                    _ => {
                        assert(false);
                        Err(Error::Skip)
                    },
                }
            } else {
                Err(Error::UnexpectedToken { token: self.inner[at].0.conv(true), span: self.inner[at].1 })
            }
        } else {
            Err(Error::Eof { span: self.cur_span() })
        }
    }

    /// Succeeds when every token is consumed; otherwise fails with the next token.
    pub fn assert_empty(&mut self) -> (r: Result<(), Error>)
        requires
            old(self).wf(),
        ensures
            kept(*old(self), *final(self)),
            final(self).pos() == old(self).pos(),
            final(self).peeker() == old(self).peeker(),
            ({
                let (p, ts) = (old(self).pos(), old(self).tokens());
                if p < ts.len() {
                    r matches Err(e) && e@ == unexpected_error(ts[p].0, ts[p].1)
                } else {
                    r is Ok
                }
            }),
    {
        proof {
            self.lemma_wf();
            lemma_trees_view(self.inner@);
        }
        if self.pos < self.inner.len() {
            Err(Error::UnexpectedToken { token: self.inner[self.pos].0.conv(true), span: self.inner[self.pos].1 })
        } else {
            Ok(())
        }
    }

    /// Consumes the next token, or fails at the end with the current span.
    pub fn take_next(&mut self) -> (r: Result<(Token<'a>, SourceSpan), Error>)
        requires
            old(self).wf(),
        ensures
            kept(*old(self), *final(self)),
            ({
                let (p, ts) = (old(self).pos(), old(self).tokens());
                if p < ts.len() {
                    &&& r matches Ok(t) && t.0@ == ts[p].0 && t.1 == ts[p].1
                    &&& final(self).pos() == p + 1
                    &&& final(self).peeker() == 0
                } else {
                    &&& r matches Err(e) && e@ == (ErrorV::Eof { span: cur_span_of(ts, p) })
                    &&& final(self).pos() == p
                    &&& final(self).peeker() == old(self).peeker()
                }
            }),
    {
        proof {
            self.lemma_wf();
            lemma_trees_view(self.inner@);
        }
        if self.pos < self.inner.len() {
            self.peeker = 0;
            let res = Ok((self.inner[self.pos].0.duplicate(), self.inner[self.pos].1));
            self.pos = self.pos + 1;
            res
        } else {
            Err(Error::Eof { span: self.cur_span() })
        }
    }

    /// Every token's text, separated by single spaces, whatever has been consumed.
    pub fn to_string(&self) -> (r: String)
        ensures
            r@ == spaced_text(self.tokens()),
    {
        let mut out = String::new();
        write_spaced(&mut out, &self.inner);
        assert(out@ =~= spaced_text(self.tokens()));
        out
    }
}

} // verus!

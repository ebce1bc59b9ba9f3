//! The modifier flags that stand before a definition: `pub`, `const` (before `fn`) and
//! `operator`.
use vstd::prelude::*;
use crate::keyword::Keyword;
use crate::lexer::{unexpected_error, Error, ErrorV, ParseCx};
use crate::span::SourceSpan;
use crate::tast::{Token, TreeV};
use crate::token_cursor::{kept, TokenCursor};

verus! {

/// A modifier of a definition.
#[derive(Clone, Copy, Debug, PartialEq, Eq, Hash, Structural)]
pub enum DefFlags {
    Public,
    Const,
    Operator,
}

/// Gathers definition flags, refusing one given twice.
#[derive(Debug)]
pub struct DefFlagsBuilder {
    inner: Vec<DefFlags>,
}

impl View for DefFlagsBuilder {
    type V = Seq<DefFlags>;

    closed spec fn view(&self) -> Seq<DefFlags> {
        self.inner@
    }
}

impl DefFlagsBuilder {
    /// No flag occurs twice.
    pub closed spec fn wf(&self) -> bool {
        self.inner@.no_duplicates()
    }

    /// A builder with no flags.
    pub fn new() -> (r: DefFlagsBuilder)
        ensures
            r.wf(),
            r@ == Seq::<DefFlags>::empty(),
    {
        DefFlagsBuilder { inner: Vec::new() }
    }

    /// Adds `item` when it is not there yet; otherwise fails with `token` as the unexpected
    /// token and leaves the flags as they were.
    pub fn try_push<'a>(&mut self, cx: &ParseCx, token: (Token<'a>, SourceSpan), item: DefFlags) -> (r: Result<(), Error>)
        requires
            old(self).wf(),
        ensures
            final(self).wf(),
            old(self)@.contains(item) ==> {
                &&& r matches Err(e) && e@ == unexpected_error(token.0@, token.1)
                &&& final(self)@ == old(self)@
            },
            !old(self)@.contains(item) ==> {
                &&& r is Ok
                &&& final(self)@ == old(self)@.push(item)
            },
    {
        let mut i: usize = 0;
        let mut found = false;
        while i < self.inner.len()
            invariant
                i <= self.inner@.len(),
                found <==> exists|j: int| 0 <= j < i && self.inner@[j] == item,
            decreases self.inner@.len() - i,
        {
            if self.inner[i] == item {
                found = true;
            }
            i = i + 1;
        }
        if !found {
            self.inner.push(item);
            Ok(())
        } else {
            Err(cx.unexpected(token))
        }
    }

    /// The flags, in the order they were added.
    pub fn build(self) -> (r: Vec<DefFlags>)
        requires
            self.wf(),
        ensures
            r@ == self@,
            r@.no_duplicates(),
    {
        self.inner
    }
}

/// The flag that the token at `i` starts, if any: `pub`, `operator`, or `const` followed
/// by `fn`.
pub open spec fn flag_at(ts: Seq<(TreeV, SourceSpan)>, i: int) -> Option<DefFlags> {
    match ts[i].0 {
        TreeV::Keyword(Keyword::Pub) => Some(DefFlags::Public),
        TreeV::Keyword(Keyword::Const) => if i + 1 < ts.len() && ts[i + 1].0 == TreeV::Keyword(Keyword::Fn) {
            Some(DefFlags::Const)
        } else {
            None
        },
        TreeV::Keyword(Keyword::Operator) => Some(DefFlags::Operator),
        _ => None,
    }
}

/// Reading flags from position `p`, with the look-ahead `k` places on, after `flags` were
/// read: the result, and the position and look-ahead the cursor ends with.
///
/// The flag is recognised at the look-ahead token and the token consumed for it is the one
/// at `p`; after the first flag the look-ahead is back at `p`. A flag given twice fails with
/// the consumed token.
pub open spec fn def_flags_from(ts: Seq<(TreeV, SourceSpan)>, p: int, k: int, flags: Seq<DefFlags>)
    -> (Result<Seq<DefFlags>, ErrorV>, int, int)
    decreases ts.len() - p,
{
    if p < 0 || k < 0 || p + k >= ts.len() {
        (Ok(flags), p, 0)
    } else {
        match flag_at(ts, p + k) {
            None => (Ok(flags), p, 0),
            Some(f) => if flags.contains(f) {
                (Err(unexpected_error(ts[p].0, ts[p].1)), p + 1, 0)
            } else {
                def_flags_from(ts, p + 1, 0, flags.push(f))
            },
        }
    }
}

/// What every result of `def_flags_from` keeps: the flags already read stay first, and no
/// flag occurs twice.
pub proof fn lemma_def_flags_from(ts: Seq<(TreeV, SourceSpan)>, p: int, k: int, flags: Seq<DefFlags>)
    requires
        flags.no_duplicates(),
    ensures
        def_flags_from(ts, p, k, flags).0 matches Ok(fs) ==> {
            &&& fs.no_duplicates()
            &&& flags.is_prefix_of(fs)
        },
        def_flags_from(ts, p, k, flags).2 == 0,
    decreases ts.len() - p,
{
    if p < 0 || k < 0 || p + k >= ts.len() {
        assert(flags.is_prefix_of(flags));
    } else {
        match flag_at(ts, p + k) {
            None => {
                assert(flags.is_prefix_of(flags));
            },
            Some(f) => {
                if !flags.contains(f) {
                    let next = flags.push(f);
                    assert(next.no_duplicates()) by {
                        assert forall|i: int, j: int| 0 <= i < j < next.len() implies next[i] != next[j] by {
                            if j == next.len() - 1 {
                                assert(flags[i] == next[i]);
                            }
                        }
                    }
                    lemma_def_flags_from(ts, p + 1, 0, next);
                    if def_flags_from(ts, p + 1, 0, next).0 is Ok {
                        let fs = def_flags_from(ts, p + 1, 0, next).0->Ok_0;
                        assert(flags.is_prefix_of(fs)) by {
                            assert forall|i: int| 0 <= i < flags.len() implies flags[i] == fs[i] by {
                                assert(next[i] == flags[i]);
                            }
                        }
                    }
                }
            },
        }
    }
}

/// Reads the flags before a definition: `pub`, `operator` and `const` (only when `fn`
/// follows it), in any order, until another token comes. A flag given twice fails with
/// that token.
pub fn parse_def_flags<'a>(c: &mut TokenCursor<'a>, cx: &mut ParseCx) -> (r: Result<Vec<DefFlags>, Error>)
    requires
        old(c).wf(),
    ensures
        kept(*old(c), *final(c)),
        ({
            let (res, p, k) = def_flags_from(old(c).tokens(), old(c).pos(), old(c).peeker(), Seq::empty());
            &&& final(c).pos() == p
            &&& final(c).peeker() == k
            &&& match res {
                Ok(fs) => r matches Ok(v) && v@ == fs,
                Err(e) => r matches Err(x) && x@ == e,
            }
        }),
        r matches Ok(v) ==> v@.no_duplicates(),
{
    let ghost c0 = *c;
    let ghost ts = c.tokens();
    let ghost target = def_flags_from(ts, c.pos(), c.peeker(), Seq::empty());
    proof {
        c.lemma_wf();
        lemma_def_flags_from(ts, c.pos(), c.peeker(), Seq::empty());
    }
    let mut flags = DefFlagsBuilder::new();
    loop
        invariant_except_break
            def_flags_from(ts, c.pos(), c.peeker(), flags@) == target,
        invariant
            c0 == *old(c),
            target == def_flags_from(old(c).tokens(), old(c).pos(), old(c).peeker(), Seq::empty()),
            kept(c0, *c),
            c.tokens() == ts,
            flags.wf(),
            0 <= c.pos() <= ts.len(),
        ensures
            target.0 == Ok::<Seq<DefFlags>, ErrorV>(flags@),
            target.1 == c.pos(),
        decreases ts.len() - c.pos(),
    {
        proof {
            c.lemma_wf();
        }
        let ghost (p, k) = (c.pos(), c.peeker());
        let kind: u8 = match c.peek() {
            Some(Token::Keyword(Keyword::Pub)) => 1,
            Some(Token::Keyword(Keyword::Const)) => 2,
            Some(Token::Keyword(Keyword::Operator)) => 3,
            _ => 0,
        };
        let found: Option<DefFlags> = if kind == 1 {
            Some(DefFlags::Public)
        } else if kind == 3 {
            Some(DefFlags::Operator)
        } else if kind == 2 {
            match c.peek() {
                Some(Token::Keyword(Keyword::Fn)) => Some(DefFlags::Const),
                _ => None,
            }
        } else {
            None
        };
        let item = match found {
            Some(f) => f,
            None => {
                break;
            },
        };
        assert(flag_at(ts, p + k) == Some(item));
        let tok = match c.take_next() {
            Ok(t) => t,
            Err(e) => {
                return Err(e);
            },
        };
        match flags.try_push(cx, tok, item) {
            Ok(()) => {},
            Err(e) => {
                return Err(e);
            },
        }
    }
    c.clear_peek();
    Ok(flags.build())
}

} // verus!

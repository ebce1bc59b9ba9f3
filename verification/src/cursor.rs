//! A cursor over the characters of a source text, with a separate look-ahead position.
use vstd::prelude::*;
use crate::chars::{char_is_whitespace, is_whitespace_char};
use crate::span::SourceSpan;
use crate::text::str_chars;

verus! {

/// Reads a source text one character at a time.
///
/// `pos` is the number of characters consumed so far. `peeker` is how far ahead of `pos`
/// the look-ahead has gone: each `peek` returns the character at `pos + peeker` and moves
/// the look-ahead one further; consuming a character with `next` resets the look-ahead.
/// `spans` is a stack of start positions opened by `begin_span`.
pub struct StringCursor<'a> {
    src: &'a str,
    chars: Vec<char>,
    pos: usize,
    peeker: usize,
    spans: Vec<usize>,
}

/// Tells which characters a `skip_while` call skips over.
#[derive(Clone, Copy, Debug, PartialEq, Eq, Structural)]
pub enum SkipClass {
    /// Characters with `char::is_whitespace`.
    Whitespace,
    /// Every character but a line feed.
    NotNewline,
}

pub open spec fn skip_class_holds(k: SkipClass, c: char) -> bool {
    match k {
        SkipClass::Whitespace => is_whitespace_char(c),
        SkipClass::NotNewline => c != '\n',
    }
}

impl<'a> StringCursor<'a> {
    /// The characters of the source text.
    pub closed spec fn text(&self) -> Seq<char> {
        self.chars@
    }

    /// The source text itself.
    pub closed spec fn source(&self) -> &'a str {
        self.src
    }

    pub closed spec fn pos(&self) -> int {
        self.pos as int
    }

    pub closed spec fn peeker(&self) -> int {
        self.peeker as int
    }

    pub closed spec fn spans(&self) -> Seq<usize> {
        self.spans@
    }

    /// The cursor's invariant: the look-ahead never passes the end of the text.
    pub closed spec fn wf(&self) -> bool {
        &&& self.chars@ == self.src@
        &&& self.chars@.len() <= usize::MAX
        &&& self.pos + self.peeker <= self.chars@.len()
    }

    pub proof fn lemma_wf(&self)
        requires
            self.wf(),
        ensures
            self.text() == self.source()@,
            0 <= self.pos(),
            0 <= self.peeker(),
            self.pos() + self.peeker() <= self.text().len(),
            self.text().len() <= usize::MAX,
    {
    }

    /// A cursor at the start of `input`.
    pub fn new(input: &'a str) -> (r: StringCursor<'a>)
        ensures
            r.wf(),
            r.source() == input,
            r.text() == input@,
            r.pos() == 0,
            r.peeker() == 0,
            r.spans() == Seq::<usize>::empty(),
    {
        let chars = str_chars(input);
        // Reading the length tells the verifier that it fits in a usize.
        let _len = chars.len();
        StringCursor { src: input, chars, pos: 0, peeker: 0, spans: Vec::new() }
    }

    /// Looks at the character `peeker` places ahead and moves the look-ahead one further.
    pub fn peek(&mut self) -> (r: Option<char>)
        requires
            old(self).wf(),
        ensures
            final(self).wf(),
            final(self).text() == old(self).text(),
            final(self).source() == old(self).source(),
            final(self).pos() == old(self).pos(),
            final(self).spans() == old(self).spans(),
            if old(self).pos() + old(self).peeker() < old(self).text().len() {
                &&& r == Some(old(self).text()[old(self).pos() + old(self).peeker()])
                &&& final(self).peeker() == old(self).peeker() + 1
            } else {
                &&& r is None
                &&& final(self).peeker() == old(self).peeker()
            },
    {
        if self.pos + self.peeker < self.chars.len() {
            let c = self.chars[self.pos + self.peeker];
            self.peeker = self.peeker + 1;
            Some(c)
        } else {
            None
        }
    }

    /// Consumes the next character, resetting the look-ahead.
    pub fn next(&mut self) -> (r: Option<char>)
        requires
            old(self).wf(),
        ensures
            final(self).wf(),
            final(self).text() == old(self).text(),
            final(self).source() == old(self).source(),
            final(self).spans() == old(self).spans(),
            if old(self).pos() < old(self).text().len() {
                &&& r == Some(old(self).text()[old(self).pos()])
                &&& final(self).pos() == old(self).pos() + 1
                &&& final(self).peeker() == 0
            } else {
                &&& r is None
                &&& final(self).pos() == old(self).pos()
                &&& final(self).peeker() == old(self).peeker()
            },
    {
        if self.pos < self.chars.len() {
            let c = self.chars[self.pos];
            self.peeker = 0;
            self.pos = self.pos + 1;
            Some(c)
        } else {
            None
        }
    }

    /// Steps back over the last consumed character (the look-ahead is kept).
    pub fn back(&mut self)
        requires
            old(self).wf(),
        ensures
            final(self).wf(),
            final(self).text() == old(self).text(),
            final(self).source() == old(self).source(),
            final(self).spans() == old(self).spans(),
            final(self).peeker() == old(self).peeker(),
            final(self).pos() == if old(self).pos() == 0 { 0 } else { old(self).pos() - 1 },
    {
        self.pos = if self.pos == 0 { 0 } else { self.pos - 1 };
    }

    /// Resets the look-ahead to the next unconsumed character.
    pub fn clear_peeker(&mut self)
        requires
            old(self).wf(),
        ensures
            final(self).wf(),
            final(self).text() == old(self).text(),
            final(self).source() == old(self).source(),
            final(self).spans() == old(self).spans(),
            final(self).pos() == old(self).pos(),
            final(self).peeker() == 0,
    {
        self.peeker = 0;
    }

    /// Consumes the next character if the look-ahead character is `ch`; otherwise moves the
    /// look-ahead one place back (not below zero).
    pub fn next_if_eq(&mut self, ch: char) -> (r: Option<char>)
        requires
            old(self).wf(),
        ensures
            final(self).wf(),
            final(self).text() == old(self).text(),
            final(self).source() == old(self).source(),
            final(self).spans() == old(self).spans(),
            ({
                let (p, k, t) = (old(self).pos(), old(self).peeker(), old(self).text());
                if p + k < t.len() && t[p + k] == ch {
                    &&& r == Some(t[p])
                    &&& final(self).pos() == p + 1
                    &&& final(self).peeker() == 0
                } else {
                    &&& r is None
                    &&& final(self).pos() == p
                    &&& final(self).peeker() == if p + k < t.len() { k } else if k == 0 { 0 } else { k - 1 }
                }
            }),
    {
        let c = self.peek();
        if c.is_some() && c.unwrap() == ch {
            self.next()
        } else {
            self.peeker = if self.peeker == 0 { 0 } else { self.peeker - 1 };
            None
        }
    }

    /// Consumes the next character if the look-ahead character is one of `set`; otherwise
    /// moves the look-ahead one place back (not below zero).
    pub fn next_if_in(&mut self, set: &[char]) -> (r: Option<char>)
        requires
            old(self).wf(),
        ensures
            final(self).wf(),
            final(self).text() == old(self).text(),
            final(self).source() == old(self).source(),
            final(self).spans() == old(self).spans(),
            ({
                let (p, k, t) = (old(self).pos(), old(self).peeker(), old(self).text());
                if p + k < t.len() && set@.contains(t[p + k]) {
                    &&& r == Some(t[p])
                    &&& final(self).pos() == p + 1
                    &&& final(self).peeker() == 0
                } else {
                    &&& r is None
                    &&& final(self).pos() == p
                    &&& final(self).peeker() == if p + k < t.len() { k } else if k == 0 { 0 } else { k - 1 }
                }
            }),
    {
        let c = self.peek();
        match c {
            Some(x) => {
                let mut found = false;
                let mut i: usize = 0;
                while i < set.len()
                    invariant
                        i <= set@.len(),
                        found <==> exists|j: int| 0 <= j < i && set@[j] == x,
                    decreases set@.len() - i,
                {
                    if set[i] == x {
                        found = true;
                    }
                    i = i + 1;
                }
                if found {
                    self.next()
                } else {
                    self.peeker = if self.peeker == 0 { 0 } else { self.peeker - 1 };
                    None
                }
            },
            None => {
                self.peeker = if self.peeker == 0 { 0 } else { self.peeker - 1 };
                None
            },
        }
    }

    /// Skips characters of class `k` one at a time, as long as the look-ahead shows one.
    pub fn skip_while(&mut self, k: SkipClass)
        requires
            old(self).wf(),
        ensures
            final(self).wf(),
            final(self).text() == old(self).text(),
            final(self).source() == old(self).source(),
            final(self).spans() == old(self).spans(),
            (final(self).pos(), final(self).peeker())
                == skip_while_result(old(self).text(), old(self).pos(), old(self).peeker(), k),
    {
        let ghost t = self.text();
        let ghost (p0, q0) = (self.pos(), self.peeker());
        let mut first = true;
        loop
            invariant_except_break
                first ==> self.pos() == p0 && self.peeker() == q0,
                !first ==> {
                    &&& 0 <= p0 + q0 < t.len()
                    &&& skip_class_holds(k, t[p0 + q0])
                    &&& self.peeker() == 0
                    &&& p0 + 1 <= self.pos()
                    &&& skip_from(t, self.pos(), k) == skip_from(t, p0 + 1, k)
                },
            invariant
                self.wf(),
                self.text() == t,
                self.source() == old(self).source(),
                self.spans() == old(self).spans(),
            ensures
                (self.pos(), self.peeker()) == skip_while_result(t, p0, q0, k),
                self.wf(),
                self.text() == t,
                self.source() == old(self).source(),
                self.spans() == old(self).spans(),
            decreases t.len() - self.pos() + (if first { 1int } else { 0int }),
        {
            let c = self.peek();
            let hit = match c {
                Some(x) => match k {
                    SkipClass::Whitespace => char_is_whitespace(x),
                    SkipClass::NotNewline => x != '\n',
                },
                None => false,
            };
            if hit {
                self.next();
                first = false;
            } else {
                self.peeker = if self.peeker == 0 { 0 } else { self.peeker - 1 };
                break;
            }
        }
    }

    /// Consumes up to `n` characters and returns them as a slice of the source text.
    pub fn take(&mut self, n: usize) -> (r: &'a str)
        requires
            old(self).wf(),
        ensures
            final(self).wf(),
            final(self).text() == old(self).text(),
            final(self).source() == old(self).source(),
            final(self).spans() == old(self).spans(),
            ({
                let (p, t) = (old(self).pos(), old(self).text());
                let k = if n <= t.len() - p { n as int } else { t.len() - p };
                &&& final(self).pos() == p + k
                &&& r@ == t.subrange(p, p + k)
                &&& final(self).peeker() == if k > 0 { 0 } else { old(self).peeker() }
            }),
    {
        let rest = self.chars.len() - self.pos;
        let k = if n <= rest { n } else { rest };
        let start = self.pos;
        let r = self.src.substring_char(start, start + k);
        if k > 0 {
            self.peeker = 0;
        }
        self.pos = start + k;
        r
    }

    /// Opens a span at the current position.
    pub fn begin_span(&mut self)
        requires
            old(self).wf(),
        ensures
            final(self).wf(),
            final(self).text() == old(self).text(),
            final(self).source() == old(self).source(),
            final(self).pos() == old(self).pos(),
            final(self).peeker() == old(self).peeker(),
            final(self).spans() == old(self).spans().push(old(self).pos() as usize),
    {
        self.spans.push(self.pos);
    }

    /// Closes the innermost open span: it runs from where it was opened to the current position.
    pub fn end_span(&mut self) -> (r: SourceSpan)
        requires
            old(self).wf(),
            old(self).spans().len() > 0,
        ensures
            final(self).wf(),
            final(self).text() == old(self).text(),
            final(self).source() == old(self).source(),
            final(self).pos() == old(self).pos(),
            final(self).peeker() == old(self).peeker(),
            final(self).spans() == old(self).spans().drop_last(),
            r == (SourceSpan { start: old(self).spans().last(), end: old(self).pos() as usize }),
    {
        let start = self.spans.pop().unwrap();
        SourceSpan { start, end: self.pos }
    }
}


/// Where skipping over characters of class `k`, one at a time, starting at `i`, stops.
pub open spec fn skip_from(t: Seq<char>, i: int, k: SkipClass) -> int
    decreases t.len() - i,
{
    if 0 <= i < t.len() && skip_class_holds(k, t[i]) {
        skip_from(t, i + 1, k)
    } else {
        i
    }
}

/// The position and look-ahead after `skip_while(k)` from position `p` and look-ahead `q`.
///
/// The first test looks at the look-ahead character, but a hit consumes the character at
/// `p`; from then on the look-ahead is back at the cursor.
pub open spec fn skip_while_result(t: Seq<char>, p: int, q: int, k: SkipClass) -> (int, int) {
    if p + q < t.len() && skip_class_holds(k, t[p + q]) {
        (skip_from(t, p + 1, k), 0)
    } else if p + q < t.len() {
        (p, q)
    } else {
        (p, if q == 0 { 0 } else { q - 1 })
    }
}

pub proof fn lemma_skip_from_bounds(t: Seq<char>, i: int, k: SkipClass)
    requires
        0 <= i <= t.len(),
    ensures
        i <= skip_from(t, i, k) <= t.len(),
        skip_from(t, i, k) < t.len() ==> !skip_class_holds(k, t[skip_from(t, i, k)]),
        forall|j: int| i <= j < skip_from(t, i, k) ==> skip_class_holds(k, #[trigger] t[j]),
    decreases t.len() - i,
{
    if i < t.len() && skip_class_holds(k, t[i]) {
        lemma_skip_from_bounds(t, i + 1, k);
    }
}

/// Looks at several characters at once.
pub trait PeekSized: Sized {
    /// The characters from the look-ahead position to the end.
    spec fn upcoming(&self) -> Seq<char>;

    spec fn peek_ready(&self) -> bool;

    /// Returns the next `n` characters from the look-ahead position and moves the look-ahead
    /// past them, or `None` (moving nothing) when fewer than `n` are left.
    fn peek_many(&mut self, n: usize) -> (r: Option<Vec<char>>)
        requires
            old(self).peek_ready(),
        ensures
            final(self).peek_ready(),
            n <= old(self).upcoming().len() ==> {
                &&& r matches Some(v)
                &&& v@ == old(self).upcoming().take(n as int)
                &&& final(self).upcoming() == old(self).upcoming().skip(n as int)
            },
            n > old(self).upcoming().len() ==> r is None && final(self).upcoming() == old(self).upcoming(),
    ;
}

impl<'a> PeekSized for StringCursor<'a> {
    open spec fn upcoming(&self) -> Seq<char> {
        self.text().subrange(self.pos() + self.peeker(), self.text().len() as int)
    }

    open spec fn peek_ready(&self) -> bool {
        self.wf()
    }

    fn peek_many(&mut self, n: usize) -> (r: Option<Vec<char>>)
        ensures
            final(self).text() == old(self).text(),
            final(self).source() == old(self).source(),
            final(self).spans() == old(self).spans(),
            final(self).pos() == old(self).pos(),
            n <= old(self).upcoming().len() ==> final(self).peeker() == old(self).peeker() + n,
            n > old(self).upcoming().len() ==> final(self).peeker() == old(self).peeker(),
    {
        let start = self.pos + self.peeker;
        if n <= self.chars.len() - start {
            let mut v: Vec<char> = Vec::new();
            let mut i: usize = 0;
            while i < n
                invariant
                    self.wf(),
                    start == self.pos + self.peeker,
                    n <= self.chars@.len() - start,
                    i <= n,
                    v@ == self.chars@.subrange(start as int, start + i),
                decreases n - i,
            {
                v.push(self.chars[start + i]);
                i = i + 1;
            }
            self.peeker = self.peeker + n;
            assert(v@ == old(self).upcoming().take(n as int));
            assert(self.upcoming() == old(self).upcoming().skip(n as int));
            Some(v)
        } else {
            None
        }
    }
}

} // verus!

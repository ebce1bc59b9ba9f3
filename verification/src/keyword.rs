//! The keywords of the language.
use vstd::prelude::*;
use crate::chars::{char_is_alphanumeric, is_alphanumeric_char};
use crate::cursor::{PeekSized, StringCursor};
use crate::text::str_chars;

verus! {

/// A reserved word.
#[derive(Clone, Copy, Debug, PartialEq, Eq, PartialOrd, Ord, Hash, Structural)]
pub enum Keyword {
    // Top-level declarations
    Import,
    Export,
    Const,
    Fn,
    Objective,
    Struct,
    Enum,
    Init,
    Tick,

    // Modifiers
    Pub,
    Operator,
    Ref,
    Extends,
    Typedef,

    // Expressions
    Let,
    Return,
    Break,
    Continue,

    // Blocks
    As,
    At,
    If,
    Else,
    For,
    In,
    While,
    Loop,

    // Values
    True,
    False,
}

/// The number of keywords.
pub const KEYWORD_COUNT: usize = 28;

/// The spelling of each keyword: its name in lower case.
pub open spec fn keyword_text(k: Keyword) -> Seq<char> {
    match k {
        Keyword::Import => seq!['i', 'm', 'p', 'o', 'r', 't'],
        Keyword::Export => seq!['e', 'x', 'p', 'o', 'r', 't'],
        Keyword::Const => seq!['c', 'o', 'n', 's', 't'],
        Keyword::Fn => seq!['f', 'n'],
        Keyword::Objective => seq!['o', 'b', 'j', 'e', 'c', 't', 'i', 'v', 'e'],
        Keyword::Struct => seq!['s', 't', 'r', 'u', 'c', 't'],
        Keyword::Enum => seq!['e', 'n', 'u', 'm'],
        Keyword::Init => seq!['i', 'n', 'i', 't'],
        Keyword::Tick => seq!['t', 'i', 'c', 'k'],
        Keyword::Pub => seq!['p', 'u', 'b'],
        Keyword::Operator => seq!['o', 'p', 'e', 'r', 'a', 't', 'o', 'r'],
        Keyword::Ref => seq!['r', 'e', 'f'],
        Keyword::Extends => seq!['e', 'x', 't', 'e', 'n', 'd', 's'],
        Keyword::Typedef => seq!['t', 'y', 'p', 'e', 'd', 'e', 'f'],
        Keyword::Let => seq!['l', 'e', 't'],
        Keyword::Return => seq!['r', 'e', 't', 'u', 'r', 'n'],
        Keyword::Break => seq!['b', 'r', 'e', 'a', 'k'],
        Keyword::Continue => seq!['c', 'o', 'n', 't', 'i', 'n', 'u', 'e'],
        Keyword::As => seq!['a', 's'],
        Keyword::At => seq!['a', 't'],
        Keyword::If => seq!['i', 'f'],
        Keyword::Else => seq!['e', 'l', 's', 'e'],
        Keyword::For => seq!['f', 'o', 'r'],
        Keyword::In => seq!['i', 'n'],
        Keyword::While => seq!['w', 'h', 'i', 'l', 'e'],
        Keyword::Loop => seq!['l', 'o', 'o', 'p'],
        Keyword::True => seq!['t', 'r', 'u', 'e'],
        Keyword::False => seq!['f', 'a', 'l', 's', 'e'],
    }
}

/// The keyword at place `i` of the order in which the tokenizer tries them (the last one
/// past the end).
pub open spec fn keyword_at(i: int) -> Keyword {
    if i == 0 {
        Keyword::Import
    } else if i == 1 {
        Keyword::Export
    } else if i == 2 {
        Keyword::Const
    } else if i == 3 {
        Keyword::Fn
    } else if i == 4 {
        Keyword::Objective
    } else if i == 5 {
        Keyword::Struct
    } else if i == 6 {
        Keyword::Enum
    } else if i == 7 {
        Keyword::Init
    } else if i == 8 {
        Keyword::Tick
    } else if i == 9 {
        Keyword::Pub
    } else if i == 10 {
        Keyword::Operator
    } else if i == 11 {
        Keyword::Ref
    } else if i == 12 {
        Keyword::Extends
    } else if i == 13 {
        Keyword::Typedef
    } else if i == 14 {
        Keyword::Let
    } else if i == 15 {
        Keyword::Return
    } else if i == 16 {
        Keyword::Break
    } else if i == 17 {
        Keyword::Continue
    } else if i == 18 {
        Keyword::As
    } else if i == 19 {
        Keyword::At
    } else if i == 20 {
        Keyword::If
    } else if i == 21 {
        Keyword::Else
    } else if i == 22 {
        Keyword::For
    } else if i == 23 {
        Keyword::In
    } else if i == 24 {
        Keyword::While
    } else if i == 25 {
        Keyword::Loop
    } else if i == 26 {
        Keyword::True
    } else {
        Keyword::False
    }
}

/// The order in which the tokenizer tries the keywords.
pub open spec fn keyword_order() -> Seq<Keyword> {
    Seq::new(28, |i: int| keyword_at(i))
}

/// Whether keyword `k` is read at a cursor that has just consumed `cur`, with the rest of the
/// spelling looked for `off` places past position `p`: `cur` is the first letter, the next
/// letters follow, and no letter or digit comes right after them.
pub open spec fn keyword_matches(t: Seq<char>, p: int, off: int, cur: char, k: Keyword) -> bool {
    let w = keyword_text(k);
    let n = w.len() - 1;
    let s = p + off;
    &&& cur == w[0]
    &&& 0 <= s
    &&& s + n <= t.len()
    &&& t.subrange(s, s + n) == w.drop_first()
    &&& (s + n >= t.len() || !is_alphanumeric_char(t[s + n]))
}

/// The first keyword, from place `i` of the order on, that matches. The first keyword tried
/// is looked for past the look-ahead `q`; every later one right at the cursor, since a failed
/// try resets the look-ahead.
pub open spec fn try_parse_from(t: Seq<char>, p: int, q: int, cur: char, i: int) -> Option<Keyword>
    decreases 28 - i,
{
    if i < 0 || i >= 28 {
        None
    } else {
        let k = keyword_order()[i];
        if keyword_matches(t, p, if i == 0 { q } else { 0 }, cur, k) {
            Some(k)
        } else {
            try_parse_from(t, p, q, cur, i + 1)
        }
    }
}

/// The keyword that `Keyword::try_parse` reads after `cur`, at position `p` with look-ahead `q`.
pub open spec fn spec_try_parse(t: Seq<char>, p: int, q: int, cur: char) -> Option<Keyword> {
    try_parse_from(t, p, q, cur, 0)
}

/// The place of a keyword in the order in which the tokenizer tries them.
pub open spec fn keyword_index(k: Keyword) -> int {
    match k {
        Keyword::Import => 0,
        Keyword::Export => 1,
        Keyword::Const => 2,
        Keyword::Fn => 3,
        Keyword::Objective => 4,
        Keyword::Struct => 5,
        Keyword::Enum => 6,
        Keyword::Init => 7,
        Keyword::Tick => 8,
        Keyword::Pub => 9,
        Keyword::Operator => 10,
        Keyword::Ref => 11,
        Keyword::Extends => 12,
        Keyword::Typedef => 13,
        Keyword::Let => 14,
        Keyword::Return => 15,
        Keyword::Break => 16,
        Keyword::Continue => 17,
        Keyword::As => 18,
        Keyword::At => 19,
        Keyword::If => 20,
        Keyword::Else => 21,
        Keyword::For => 22,
        Keyword::In => 23,
        Keyword::While => 24,
        Keyword::Loop => 25,
        Keyword::True => 26,
        Keyword::False => 27,
    }
}

/// A keyword read after `c` at the start of `t` spells its first letters there.
proof fn lemma_match_letters(t: Seq<char>, c: char, k: Keyword)
    requires
        keyword_matches(t, 0, 0, c, k),
    ensures
        c == keyword_text(k)[0],
        keyword_text(k).len() - 1 <= t.len(),
        t[0] == keyword_text(k)[1],
        keyword_text(k).len() > 2 ==> t[1] == keyword_text(k)[2],
        keyword_text(k).len() > 3 ==> t[2] == keyword_text(k)[3],
{
    lemma_keyword_text_len(k);
    let w = keyword_text(k);
    let n = w.len() - 1;
    assert(t.subrange(0, n)[0] == w.drop_first()[0]);
    if n > 1 {
        assert(t.subrange(0, n)[1] == w.drop_first()[1]);
    }
    if n > 2 {
        assert(t.subrange(0, n)[2] == w.drop_first()[2]);
    }
}

/// No keyword tried before `k` matches the rest of `k`'s spelling.
#[verifier::spinoff_prover]
proof fn lemma_no_earlier_keyword(k: Keyword, j: int)
    requires
        0 <= j < keyword_index(k),
    ensures
        !keyword_matches(keyword_text(k).drop_first(), 0, 0, keyword_text(k)[0], keyword_at(j)),
{
    let t = keyword_text(k).drop_first();
    if keyword_matches(t, 0, 0, keyword_text(k)[0], keyword_at(j)) {
        lemma_match_letters(t, keyword_text(k)[0], keyword_at(j));
        match k {
            Keyword::Import => {},
            Keyword::Export => {},
            Keyword::Const => {},
            Keyword::Fn => {},
            Keyword::Objective => {},
            Keyword::Struct => {},
            Keyword::Enum => {},
            Keyword::Init => {},
            Keyword::Tick => {},
            Keyword::Pub => {},
            Keyword::Operator => {},
            Keyword::Ref => {},
            Keyword::Extends => {},
            Keyword::Typedef => {},
            Keyword::Let => {},
            Keyword::Return => {},
            Keyword::Break => {},
            Keyword::Continue => {},
            Keyword::As => {},
            Keyword::At => {},
            Keyword::If => {},
            Keyword::Else => {},
            Keyword::For => {},
            Keyword::In => {},
            Keyword::While => {},
            Keyword::Loop => {},
            Keyword::True => {},
            Keyword::False => {},
        }
    }
}

/// Trying the keywords from place `i` on, no later than `k`'s own place, finds `k` in the
/// rest of its spelling.
proof fn lemma_reads_from(k: Keyword, i: int)
    requires
        0 <= i <= keyword_index(k),
    ensures
        try_parse_from(keyword_text(k).drop_first(), 0, 0, keyword_text(k)[0], i) == Some(k),
    decreases keyword_index(k) - i,
{
    let w = keyword_text(k);
    let t = w.drop_first();
    assert(keyword_order()[i] == keyword_at(i));
    if i < keyword_index(k) {
        lemma_reads_from(k, i + 1);
        lemma_no_earlier_keyword(k, i);
    } else {
        assert(keyword_at(keyword_index(k)) == k);
        assert(t.subrange(0, w.len() - 1) =~= w.drop_first());
    }
}

/// A keyword's own spelling is read back as that keyword: after its first letter, the rest
/// of its spelling (and nothing after it) gives the keyword.
pub proof fn law_keyword_reads_back(k: Keyword)
    ensures
        spec_try_parse(keyword_text(k).drop_first(), 0, 0, keyword_text(k)[0]) == Some(k),
{
    lemma_reads_from(k, 0);
}

pub proof fn lemma_keyword_text_len(k: Keyword)
    ensures
        2 <= keyword_text(k).len() <= 9,
{
}

impl Keyword {
    /// The keyword's spelling.
    pub fn as_str(&self) -> (r: &'static str)
        ensures
            r@ == keyword_text(*self),
    {
        match self {
            Keyword::Import => {
                proof { reveal_strlit("import"); }
                "import"
            },
            Keyword::Export => {
                proof { reveal_strlit("export"); }
                "export"
            },
            Keyword::Const => {
                proof { reveal_strlit("const"); }
                "const"
            },
            Keyword::Fn => {
                proof { reveal_strlit("fn"); }
                "fn"
            },
            Keyword::Objective => {
                proof { reveal_strlit("objective"); }
                "objective"
            },
            Keyword::Struct => {
                proof { reveal_strlit("struct"); }
                "struct"
            },
            Keyword::Enum => {
                proof { reveal_strlit("enum"); }
                "enum"
            },
            Keyword::Init => {
                proof { reveal_strlit("init"); }
                "init"
            },
            Keyword::Tick => {
                proof { reveal_strlit("tick"); }
                "tick"
            },
            Keyword::Pub => {
                proof { reveal_strlit("pub"); }
                "pub"
            },
            Keyword::Operator => {
                proof { reveal_strlit("operator"); }
                "operator"
            },
            Keyword::Ref => {
                proof { reveal_strlit("ref"); }
                "ref"
            },
            Keyword::Extends => {
                proof { reveal_strlit("extends"); }
                "extends"
            },
            Keyword::Typedef => {
                proof { reveal_strlit("typedef"); }
                "typedef"
            },
            Keyword::Let => {
                proof { reveal_strlit("let"); }
                "let"
            },
            Keyword::Return => {
                proof { reveal_strlit("return"); }
                "return"
            },
            Keyword::Break => {
                proof { reveal_strlit("break"); }
                "break"
            },
            Keyword::Continue => {
                proof { reveal_strlit("continue"); }
                "continue"
            },
            Keyword::As => {
                proof { reveal_strlit("as"); }
                "as"
            },
            Keyword::At => {
                proof { reveal_strlit("at"); }
                "at"
            },
            Keyword::If => {
                proof { reveal_strlit("if"); }
                "if"
            },
            Keyword::Else => {
                proof { reveal_strlit("else"); }
                "else"
            },
            Keyword::For => {
                proof { reveal_strlit("for"); }
                "for"
            },
            Keyword::In => {
                proof { reveal_strlit("in"); }
                "in"
            },
            Keyword::While => {
                proof { reveal_strlit("while"); }
                "while"
            },
            Keyword::Loop => {
                proof { reveal_strlit("loop"); }
                "loop"
            },
            Keyword::True => {
                proof { reveal_strlit("true"); }
                "true"
            },
            Keyword::False => {
                proof { reveal_strlit("false"); }
                "false"
            },
        }
    }

    /// The keyword at place `i` of the order in which the tokenizer tries them.
    pub fn at(i: usize) -> (r: Keyword)
        requires
            i < KEYWORD_COUNT,
        ensures
            r == keyword_order()[i as int],
    {
        match i {
            0 => Keyword::Import,
            1 => Keyword::Export,
            2 => Keyword::Const,
            3 => Keyword::Fn,
            4 => Keyword::Objective,
            5 => Keyword::Struct,
            6 => Keyword::Enum,
            7 => Keyword::Init,
            8 => Keyword::Tick,
            9 => Keyword::Pub,
            10 => Keyword::Operator,
            11 => Keyword::Ref,
            12 => Keyword::Extends,
            13 => Keyword::Typedef,
            14 => Keyword::Let,
            15 => Keyword::Return,
            16 => Keyword::Break,
            17 => Keyword::Continue,
            18 => Keyword::As,
            19 => Keyword::At,
            20 => Keyword::If,
            21 => Keyword::Else,
            22 => Keyword::For,
            23 => Keyword::In,
            24 => Keyword::While,
            25 => Keyword::Loop,
            26 => Keyword::True,
            _ => Keyword::False,
        }
    }

    /// Reads a keyword that starts with the already consumed character `cur`.
    ///
    /// Tries every keyword in order; on a match the rest of its spelling is consumed.
    /// The look-ahead is reset either way.
    pub fn try_parse<'a>(cur: char, iter: &mut StringCursor<'a>) -> (r: Option<Keyword>)
        requires
            old(iter).wf(),
        ensures
            final(iter).wf(),
            final(iter).text() == old(iter).text(),
            final(iter).source() == old(iter).source(),
            final(iter).spans() == old(iter).spans(),
            final(iter).peeker() == 0,
            r == spec_try_parse(old(iter).text(), old(iter).pos(), old(iter).peeker(), cur),
            match r {
                Some(k) => final(iter).pos() == old(iter).pos() + keyword_text(k).len() - 1,
                None => final(iter).pos() == old(iter).pos(),
            },
    {
        let ghost t = iter.text();
        let ghost p = iter.pos();
        let ghost q = iter.peeker();
        let mut i: usize = 0;
        while i < KEYWORD_COUNT
            invariant
                iter.wf(),
                iter.text() == t,
                iter.source() == old(iter).source(),
                iter.spans() == old(iter).spans(),
                iter.pos() == p,
                t == old(iter).text(),
                p == old(iter).pos(),
                q == old(iter).peeker(),
                iter.peeker() == if i == 0 { q } else { 0 },
                i <= KEYWORD_COUNT,
                spec_try_parse(t, p, q, cur) == try_parse_from(t, p, q, cur, i as int),
            decreases KEYWORD_COUNT - i,
        {
            let k = Keyword::at(i);
            let w = str_chars(k.as_str());
            proof { lemma_keyword_text_len(k); }
            let n = w.len() - 1;
            let ghost off = if i == 0 { q } else { 0 };
            let mut ok = cur == w[0];
            assert(w@ == keyword_text(k));
            assert(ok == (cur == keyword_text(k)[0]));
            proof { iter.lemma_wf(); }
            if ok && n > 0 {
                match iter.peek_many(n) {
                    Some(v) => {
                        let mut j: usize = 0;
                        #[verifier::loop_isolation(false)]
                        while j < n
                            invariant
                                v@.len() == n,
                                w@.len() == n + 1,
                                j <= n,
                                ok ==> forall|x: int| 0 <= x < j ==> v@[x] == w@[x + 1],
                                !ok ==> exists|x: int| 0 <= x < j && v@[x] != w@[x + 1],
                            decreases n - j,
                        {
                            if v[j] != w[j + 1] {
                                ok = false;
                            }
                            j = j + 1;
                        }
                        if ok {
                            assert(v@ == w@.drop_first());
                        } else {
                            assert(v@ != w@.drop_first()) by {
                                let x = choose|x: int| 0 <= x < n && v@[x] != w@[x + 1];
                                assert(w@.drop_first()[x] == w@[x + 1]);
                            }
                        }
                    },
                    None => {
                        ok = false;
                    },
                }
            }
            assert(ok ==> cur == keyword_text(k)[0]);
            assert(ok ==> iter.peeker() == off + n);
            assert(ok ==> p + off + n <= t.len());
            assert(ok ==> t.subrange(p + off, p + off + n) == keyword_text(k).drop_first());
            assert(!ok ==> !keyword_matches(t, p, off, cur, k));
            if ok {
                let c = iter.peek();
                ok = match c {
                    None => true,
                    Some(x) => !char_is_alphanumeric(x),
                };
            }
            assert(ok == keyword_matches(t, p, off, cur, k));
            if ok {
                let _ = iter.take(n);
                return Some(k);
            }
            iter.clear_peeker();
            i = i + 1;
        }
        None
    }
}

} // verus!

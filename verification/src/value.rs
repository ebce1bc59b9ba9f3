//! Literal values read from token trees: plain literals and the `@`/`#`-prefixed literals of
//! command syntax.
use vstd::prelude::*;
use crate::def_meta::DslMarker;
use crate::keyword::Keyword;
use crate::lexer::{Error, ErrorV, ParseCx};
use crate::span::{spec_join, SourceSpan};
use crate::tast::{self, TreeV};
use crate::text::str_eq;
use crate::token::{self, LiteralV, Operator};
use crate::token_cursor::{cur_span_of, kept, TokenCursor};

verus! {

/// The value of a literal.
#[derive(Clone, Copy, Debug)]
pub enum LiteralValue<'a> {
    Byte(i8),
    Double(&'a str),
    Float(&'a str),
    Int(i32),
    Long(i64),
    String(&'a str),
    Bool(bool),
}

pub enum LiteralValueV {
    Byte(i8),
    Double(Seq<char>),
    Float(Seq<char>),
    Int(i32),
    Long(i64),
    String(Seq<char>),
    Bool(bool),
}

impl<'a> View for LiteralValue<'a> {
    type V = LiteralValueV;

    open spec fn view(&self) -> LiteralValueV {
        match self {
            LiteralValue::Byte(v) => LiteralValueV::Byte(*v),
            LiteralValue::Double(s) => LiteralValueV::Double(s@),
            LiteralValue::Float(s) => LiteralValueV::Float(s@),
            LiteralValue::Int(v) => LiteralValueV::Int(*v),
            LiteralValue::Long(v) => LiteralValueV::Long(*v),
            LiteralValue::String(s) => LiteralValueV::String(s@),
            LiteralValue::Bool(b) => LiteralValueV::Bool(*b),
        }
    }
}

/// A literal value with its span.
#[derive(Clone, Copy, Debug)]
pub struct Literal<'a> {
    pub value: LiteralValue<'a>,
    pub span: SourceSpan,
}

impl<'a> View for Literal<'a> {
    type V = (LiteralValueV, SourceSpan);

    open spec fn view(&self) -> (LiteralValueV, SourceSpan) {
        (self.value@, self.span)
    }
}

/// A literal after a `@` or `#` marker, spanning both.
#[derive(Clone, Copy, Debug)]
pub struct DslLiteral<'a> {
    pub dsl_marker: DslMarker,
    pub value: LiteralValue<'a>,
    pub span: SourceSpan,
}

/// The literal value a token tree stands for: numbers, strings, `true` and `false`.
pub open spec fn literal_value_of(t: TreeV) -> Option<LiteralValueV> {
    match t {
        TreeV::Literal(LiteralV::Byte(v)) => Some(LiteralValueV::Byte(v)),
        TreeV::Literal(LiteralV::Double(s)) => Some(LiteralValueV::Double(s)),
        TreeV::Literal(LiteralV::Float(s)) => Some(LiteralValueV::Float(s)),
        TreeV::Literal(LiteralV::Int(v)) => Some(LiteralValueV::Int(v)),
        TreeV::Literal(LiteralV::Long(v)) => Some(LiteralValueV::Long(v)),
        TreeV::Literal(LiteralV::String(s)) => Some(LiteralValueV::String(s)),
        TreeV::Keyword(Keyword::True) => Some(LiteralValueV::Bool(true)),
        TreeV::Keyword(Keyword::False) => Some(LiteralValueV::Bool(false)),
        _ => None,
    }
}

/// Whether two literal values are the same.
pub fn literal_value_eq<'a>(x: &LiteralValue<'a>, y: &LiteralValue<'a>) -> (r: bool)
    ensures
        r == (x@ == y@),
{
    match (x, y) {
        (LiteralValue::Byte(a), LiteralValue::Byte(b)) => *a == *b,
        (LiteralValue::Double(a), LiteralValue::Double(b)) => str_eq(a, b),
        (LiteralValue::Float(a), LiteralValue::Float(b)) => str_eq(a, b),
        (LiteralValue::Int(a), LiteralValue::Int(b)) => *a == *b,
        (LiteralValue::Long(a), LiteralValue::Long(b)) => *a == *b,
        (LiteralValue::String(a), LiteralValue::String(b)) => str_eq(a, b),
        (LiteralValue::Bool(a), LiteralValue::Bool(b)) => *a == *b,
        _ => false,
    }
}

/// Consumes the next token and reads it as a literal. Any other token (consumed all the
/// same) tells the caller to try something else; at the end it fails with the current span.
pub fn parse_literal<'a>(c: &mut TokenCursor<'a>, cx: &mut ParseCx) -> (r: Result<Literal<'a>, Error>)
    requires
        old(c).wf(),
    ensures
        kept(*old(c), *final(c)),
        ({
            let (p, ts) = (old(c).pos(), old(c).tokens());
            if p < ts.len() {
                &&& final(c).pos() == p + 1
                &&& final(c).peeker() == 0
                &&& match literal_value_of(ts[p].0) {
                    Some(v) => r matches Ok(l) && l@ == (v, ts[p].1),
                    None => r matches Err(e) && e@ == ErrorV::Skip,
                }
            } else {
                &&& final(c).pos() == p
                &&& final(c).peeker() == old(c).peeker()
                &&& r matches Err(e) && e@ == (ErrorV::Eof { span: cur_span_of(ts, p) })
            }
        }),
{
    match c.next() {
        Some((tast::Token::Literal(token::Literal::Byte(it)), span)) => Ok(Literal { value: LiteralValue::Byte(it), span }),
        Some((tast::Token::Literal(token::Literal::Double(it)), span)) => Ok(Literal { value: LiteralValue::Double(it), span }),
        Some((tast::Token::Literal(token::Literal::Float(it)), span)) => Ok(Literal { value: LiteralValue::Float(it), span }),
        Some((tast::Token::Literal(token::Literal::Int(it)), span)) => Ok(Literal { value: LiteralValue::Int(it), span }),
        Some((tast::Token::Literal(token::Literal::Long(it)), span)) => Ok(Literal { value: LiteralValue::Long(it), span }),
        Some((tast::Token::Literal(token::Literal::String(it)), span)) => Ok(Literal { value: LiteralValue::String(it), span }),
        Some((tast::Token::Keyword(Keyword::True), span)) => Ok(Literal { value: LiteralValue::Bool(true), span }),
        Some((tast::Token::Keyword(Keyword::False), span)) => Ok(Literal { value: LiteralValue::Bool(false), span }),
        Some(_) => Err(cx.skip()),
        None => Err(cx.eof(c.cur_span())),
    }
}

/// The marker a token tree stands for.
pub open spec fn dsl_marker_of(t: TreeV) -> Option<DslMarker> {
    match t {
        TreeV::Operator(Operator::At) => Some(DslMarker::At),
        TreeV::Punct(tast::Punct::Hash) => Some(DslMarker::Hash),
        _ => None,
    }
}

/// Reads a `@` or `#` marker and the literal after it. The span opened at the start stays
/// open when reading fails.
pub fn parse_dsl_literal<'a>(c: &mut TokenCursor<'a>, cx: &mut ParseCx) -> (r: Result<DslLiteral<'a>, Error>)
    requires
        old(c).wf(),
    ensures
        final(c).wf(),
        final(c).tokens() == old(c).tokens(),
        final(c).states() == old(c).states(),
        ({
            let (p, ts, sp) = (old(c).pos(), old(c).tokens(), old(c).spans());
            let opened = sp.push(cur_span_of(ts, p));
            if p >= ts.len() {
                &&& r matches Err(e) && e@ == (ErrorV::Eof { span: cur_span_of(ts, p) })
                &&& final(c).pos() == p
                &&& final(c).peeker() == old(c).peeker()
                &&& final(c).spans() == opened
            } else if dsl_marker_of(ts[p].0) is None {
                &&& r matches Err(e) && e@ == ErrorV::Skip
                &&& final(c).pos() == p + 1
                &&& final(c).peeker() == 0
                &&& final(c).spans() == opened
            } else if p + 1 >= ts.len() {
                &&& r matches Err(e) && e@ == (ErrorV::Eof { span: cur_span_of(ts, p + 1) })
                &&& final(c).pos() == p + 1
                &&& final(c).spans() == opened
            } else {
                &&& final(c).pos() == p + 2
                &&& final(c).peeker() == 0
                &&& match literal_value_of(ts[p + 1].0) {
                    Some(v) => {
                        &&& r matches Ok(d) && d.dsl_marker == dsl_marker_of(ts[p].0)->0 && d.value@ == v
                            && d.span == spec_join(cur_span_of(ts, p), ts[p + 1].1)
                        &&& final(c).spans() == sp
                    },
                    None => {
                        &&& r matches Err(e) && e@ == ErrorV::Skip
                        &&& final(c).spans() == opened
                    },
                }
            }
        }),
{
    let ghost ts = c.tokens();
    let ghost p = c.pos();
    proof { c.lemma_wf(); }
    c.begin_span();
    let marker = match c.take_next() {
        Ok((tast::Token::Operator(Operator::At), _)) => DslMarker::At,
        Ok((tast::Token::Punct(tast::Punct::Hash), _)) => DslMarker::Hash,
        Ok(_) => {
            return Err(cx.skip());
        },
        Err(e) => {
            return Err(e);
        },
    };
    let value = match parse_literal(c, cx) {
        Ok(l) => l,
        Err(e) => {
            return Err(e);
        },
    };
    let span = c.end_span();
    Ok(DslLiteral { dsl_marker: marker, value: value.value, span })
}

} // verus!

//! The flat tokens that the tokenizer produces.
use vstd::prelude::*;
use crate::keyword::Keyword;
use crate::span::SourceSpan;

verus! {

/// The kind of a delimiter pair.
#[derive(Clone, Copy, Debug, PartialEq, Eq, PartialOrd, Ord, Hash, Structural)]
pub enum BraceType {
    /// `()`
    Parens,
    /// `[]`
    Brackets,
    /// `{}`
    Braces,
}

/// Punctuation, delimiters included.
#[derive(Clone, Copy, Debug, PartialEq, Eq, PartialOrd, Ord, Hash, Structural)]
pub enum Punct {
    /// `#`
    Hash,
    /// `;`
    Semi,
    /// `,`
    Comma,
    /// `:`
    Colon,
    /// An opening delimiter.
    GroupStart(BraceType),
    /// A closing delimiter.
    GroupEnd(BraceType),
}

/// A comparison operator.
#[derive(Clone, Copy, Debug, PartialEq, Eq, PartialOrd, Ord, Hash, Structural)]
pub enum Comparison {
    /// `==`
    Equal,
    /// `<`
    Less,
    /// `<=`
    LessEqual,
    /// `>`
    Greater,
    /// `>=`
    GreaterEqual,
    /// `!=`
    NotEqual,
}

/// An assignment operator.
#[derive(Clone, Copy, Debug, PartialEq, Eq, PartialOrd, Ord, Hash, Structural)]
pub enum Assignment {
    /// `=`
    Equal,
    /// `+=`
    AddEqual,
    /// `-=`
    SubEqual,
    /// `*=`
    MulEqual,
    /// `/=`
    DivEqual,
    /// `%=`
    ModEqual,
}

/// Any other operator.
#[derive(Clone, Copy, Debug, PartialEq, Eq, PartialOrd, Ord, Hash, Structural)]
pub enum Operator {
    /// `@`
    At,
    /// `+`
    Plus,
    /// `-`
    Minus,
    /// `*`
    Star,
    /// `/`
    Slash,
    /// `%`
    Percent,
    /// `!`
    Bang,
    /// `.`
    Dot,
    /// `..`
    Range,
    /// `::`
    ModulePath,
    /// `->`
    Returns,
}

/// How a delimiter pair is printed.
pub open spec fn brace_text(x: BraceType) -> Seq<char> {
    match x {
        BraceType::Parens => seq!['(', ')'],
        BraceType::Brackets => seq!['[', ']'],
        BraceType::Braces => seq!['{', '}'],
    }
}

/// The spelling of a punctuation token.
pub open spec fn punct_text(x: Punct) -> Seq<char> {
    match x {
        Punct::Hash => seq!['#'],
        Punct::Semi => seq![';'],
        Punct::Comma => seq![','],
        Punct::Colon => seq![':'],
        Punct::GroupStart(BraceType::Parens) => seq!['('],
        Punct::GroupStart(BraceType::Brackets) => seq!['['],
        Punct::GroupStart(BraceType::Braces) => seq!['{'],
        Punct::GroupEnd(BraceType::Parens) => seq![')'],
        Punct::GroupEnd(BraceType::Brackets) => seq![']'],
        Punct::GroupEnd(BraceType::Braces) => seq!['}'],
    }
}

/// The spelling of a comparison operator.
pub open spec fn comparison_text(x: Comparison) -> Seq<char> {
    match x {
        Comparison::Equal => seq!['=', '='],
        Comparison::Less => seq!['<'],
        Comparison::LessEqual => seq!['<', '='],
        Comparison::Greater => seq!['>'],
        Comparison::GreaterEqual => seq!['>', '='],
        Comparison::NotEqual => seq!['!', '='],
    }
}

/// The spelling of an assignment operator.
pub open spec fn assignment_text(x: Assignment) -> Seq<char> {
    match x {
        Assignment::Equal => seq!['='],
        Assignment::AddEqual => seq!['+', '='],
        Assignment::SubEqual => seq!['-', '='],
        Assignment::MulEqual => seq!['*', '='],
        Assignment::DivEqual => seq!['/', '='],
        Assignment::ModEqual => seq!['%', '='],
    }
}

/// The spelling of an operator.
pub open spec fn operator_text(x: Operator) -> Seq<char> {
    match x {
        Operator::At => seq!['@'],
        Operator::Plus => seq!['+'],
        Operator::Minus => seq!['-'],
        Operator::Star => seq!['*'],
        Operator::Slash => seq!['/'],
        Operator::Percent => seq!['%'],
        Operator::Bang => seq!['!'],
        Operator::Dot => seq!['.'],
        Operator::Range => seq!['.', '.'],
        Operator::ModulePath => seq![':', ':'],
        Operator::Returns => seq!['-', '>'],
    }
}

impl BraceType {
    /// The spelling, as the `Display` of the token prints it.
    pub fn as_str(&self) -> (r: &'static str)
        ensures
            r@ == brace_text(*self),
    {
        match self {
            BraceType::Parens => {
                proof { reveal_strlit("()"); }
                "()"
            },
            BraceType::Brackets => {
                proof { reveal_strlit("[]"); }
                "[]"
            },
            BraceType::Braces => {
                proof { reveal_strlit("{}"); }
                "{}"
            },
        }
    }
}

impl Punct {
    /// The spelling, as the `Display` of the token prints it.
    pub fn as_str(&self) -> (r: &'static str)
        ensures
            r@ == punct_text(*self),
    {
        match self {
            Punct::Hash => {
                proof { reveal_strlit("#"); }
                "#"
            },
            Punct::Semi => {
                proof { reveal_strlit(";"); }
                ";"
            },
            Punct::Comma => {
                proof { reveal_strlit(","); }
                ","
            },
            Punct::Colon => {
                proof { reveal_strlit(":"); }
                ":"
            },
            Punct::GroupStart(BraceType::Parens) => {
                proof { reveal_strlit("("); }
                "("
            },
            Punct::GroupStart(BraceType::Brackets) => {
                proof { reveal_strlit("["); }
                "["
            },
            Punct::GroupStart(BraceType::Braces) => {
                proof { reveal_strlit("{"); }
                "{"
            },
            Punct::GroupEnd(BraceType::Parens) => {
                proof { reveal_strlit(")"); }
                ")"
            },
            Punct::GroupEnd(BraceType::Brackets) => {
                proof { reveal_strlit("]"); }
                "]"
            },
            Punct::GroupEnd(BraceType::Braces) => {
                proof { reveal_strlit("}"); }
                "}"
            },
        }
    }
}

impl Comparison {
    /// The spelling, as the `Display` of the token prints it.
    pub fn as_str(&self) -> (r: &'static str)
        ensures
            r@ == comparison_text(*self),
    {
        match self {
            Comparison::Equal => {
                proof { reveal_strlit("=="); }
                "=="
            },
            Comparison::Less => {
                proof { reveal_strlit("<"); }
                "<"
            },
            Comparison::LessEqual => {
                proof { reveal_strlit("<="); }
                "<="
            },
            Comparison::Greater => {
                proof { reveal_strlit(">"); }
                ">"
            },
            Comparison::GreaterEqual => {
                proof { reveal_strlit(">="); }
                ">="
            },
            Comparison::NotEqual => {
                proof { reveal_strlit("!="); }
                "!="
            },
        }
    }
}

impl Assignment {
    /// The spelling, as the `Display` of the token prints it.
    pub fn as_str(&self) -> (r: &'static str)
        ensures
            r@ == assignment_text(*self),
    {
        match self {
            Assignment::Equal => {
                proof { reveal_strlit("="); }
                "="
            },
            Assignment::AddEqual => {
                proof { reveal_strlit("+="); }
                "+="
            },
            Assignment::SubEqual => {
                proof { reveal_strlit("-="); }
                "-="
            },
            Assignment::MulEqual => {
                proof { reveal_strlit("*="); }
                "*="
            },
            Assignment::DivEqual => {
                proof { reveal_strlit("/="); }
                "/="
            },
            Assignment::ModEqual => {
                proof { reveal_strlit("%="); }
                "%="
            },
        }
    }
}

impl Operator {
    /// The spelling, as the `Display` of the token prints it.
    pub fn as_str(&self) -> (r: &'static str)
        ensures
            r@ == operator_text(*self),
    {
        match self {
            Operator::At => {
                proof { reveal_strlit("@"); }
                "@"
            },
            Operator::Plus => {
                proof { reveal_strlit("+"); }
                "+"
            },
            Operator::Minus => {
                proof { reveal_strlit("-"); }
                "-"
            },
            Operator::Star => {
                proof { reveal_strlit("*"); }
                "*"
            },
            Operator::Slash => {
                proof { reveal_strlit("/"); }
                "/"
            },
            Operator::Percent => {
                proof { reveal_strlit("%"); }
                "%"
            },
            Operator::Bang => {
                proof { reveal_strlit("!"); }
                "!"
            },
            Operator::Dot => {
                proof { reveal_strlit("."); }
                "."
            },
            Operator::Range => {
                proof { reveal_strlit(".."); }
                ".."
            },
            Operator::ModulePath => {
                proof { reveal_strlit("::"); }
                "::"
            },
            Operator::Returns => {
                proof { reveal_strlit("->"); }
                "->"
            },
        }
    }
}

/// A literal value, borrowing its text from the source.
///
/// `Float` and `Double` keep the digits of the literal (without the suffix); turning them
/// into a floating-point value is left to the user of the library.
#[derive(Clone, Copy, Debug)]
pub enum Literal<'a> {
    Identifier(&'a str),
    String(&'a str),
    Int(i32),
    Long(i64),
    /// Minecraft bytes are signed.
    Byte(i8),
    Float(&'a str),
    Double(&'a str),
}

/// The mathematical value of a literal: texts as character sequences.
pub enum LiteralV {
    Identifier(Seq<char>),
    String(Seq<char>),
    Int(i32),
    Long(i64),
    Byte(i8),
    Float(Seq<char>),
    Double(Seq<char>),
}

impl<'a> View for Literal<'a> {
    type V = LiteralV;

    open spec fn view(&self) -> LiteralV {
        match self {
            Literal::Identifier(s) => LiteralV::Identifier(s@),
            Literal::String(s) => LiteralV::String(s@),
            Literal::Int(v) => LiteralV::Int(*v),
            Literal::Long(v) => LiteralV::Long(*v),
            Literal::Byte(v) => LiteralV::Byte(*v),
            Literal::Float(s) => LiteralV::Float(s@),
            Literal::Double(s) => LiteralV::Double(s@),
        }
    }
}

/// A token of the source text.
#[derive(Clone, Copy, Debug)]
pub enum Token<'a> {
    Keyword(Keyword),
    Punct(Punct),
    Comparison(Comparison),
    Assignment(Assignment),
    Operator(Operator),
    Literal(Literal<'a>),
}

/// The mathematical value of a token.
pub enum TokenV {
    Keyword(Keyword),
    Punct(Punct),
    Comparison(Comparison),
    Assignment(Assignment),
    Operator(Operator),
    Literal(LiteralV),
}

impl<'a> View for Token<'a> {
    type V = TokenV;

    open spec fn view(&self) -> TokenV {
        match self {
            Token::Keyword(k) => TokenV::Keyword(*k),
            Token::Punct(p) => TokenV::Punct(*p),
            Token::Comparison(c) => TokenV::Comparison(*c),
            Token::Assignment(a) => TokenV::Assignment(*a),
            Token::Operator(o) => TokenV::Operator(*o),
            Token::Literal(l) => TokenV::Literal(l@),
        }
    }
}

/// Why the tokenizer stopped.
#[derive(Debug)]
pub enum TokenError {
    /// A character that starts no token.
    Unexpected { ch: char, span: SourceSpan },
    /// A number with two decimal points.
    DoubleDotFloat,
    /// A number that does not fit its integer type.
    ParseInt { inner: core::num::ParseIntError },
    /// A number that is no valid floating-point text.
    ParseFloat,
}

/// The kind of a tokenizer error, with its character and span where it has them.
pub enum TokenErrorV {
    Unexpected { ch: char, span: SourceSpan },
    DoubleDotFloat,
    ParseInt,
    ParseFloat,
}

impl View for TokenError {
    type V = TokenErrorV;

    open spec fn view(&self) -> TokenErrorV {
        match self {
            TokenError::Unexpected { ch, span } => TokenErrorV::Unexpected { ch: *ch, span: *span },
            TokenError::DoubleDotFloat => TokenErrorV::DoubleDotFloat,
            TokenError::ParseInt { .. } => TokenErrorV::ParseInt,
            TokenError::ParseFloat => TokenErrorV::ParseFloat,
        }
    }
}

} // verus!
